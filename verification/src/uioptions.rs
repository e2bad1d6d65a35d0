//! Options sent when registering as a remote UI.
//!
//! An option set is an ordered list of named options with no name twice:
//! setting an option that is already present replaces it in place, and
//! `to_value_map` lays the set out as the wire map the attach call takes.
use vstd::prelude::*;

use crate::value::{WireVal, WireValue};

verus! {

/// One UI option. Names travel as raw bytes, as all strings do here.
pub enum UiOption {
    Rgb(bool),
    Override(bool),
    ExtCmdline(bool),
    ExtHlstate(bool),
    ExtLinegrid(bool),
    ExtMessages(bool),
    ExtMultigrid(bool),
    ExtPopupmenu(bool),
    ExtTabline(bool),
    ExtTermcolors(bool),
    TermName(Vec<u8>),
    TermColors(u64),
    TermBackground(Vec<u8>),
    StdinFd(u64),
    StdinTty(bool),
    StdoutTty(bool),
    ExtWildmenu(bool),
}

impl UiOption {
    /// The option's name on the wire.
    pub open spec fn name_bytes(self) -> Seq<u8> {
        match self {
            UiOption::Rgb(_) => seq![0x72u8, 0x67u8, 0x62u8],
            UiOption::Override(_) => seq![0x6fu8, 0x76u8, 0x65u8, 0x72u8, 0x72u8, 0x69u8, 0x64u8, 0x65u8],
            UiOption::ExtCmdline(_) => seq![
                0x65u8, 0x78u8, 0x74u8, 0x5fu8, 0x63u8, 0x6du8, 0x64u8, 0x6cu8, 0x69u8, 0x6eu8, 0x65u8,
            ],
            UiOption::ExtHlstate(_) => seq![
                0x65u8, 0x78u8, 0x74u8, 0x5fu8, 0x68u8, 0x6cu8, 0x73u8, 0x74u8, 0x61u8, 0x74u8, 0x65u8,
            ],
            UiOption::ExtLinegrid(_) => seq![
                0x65u8, 0x78u8, 0x74u8, 0x5fu8, 0x6cu8, 0x69u8, 0x6eu8, 0x65u8, 0x67u8, 0x72u8, 0x69u8, 0x64u8,
            ],
            UiOption::ExtMessages(_) => seq![
                0x65u8, 0x78u8, 0x74u8, 0x5fu8, 0x6du8, 0x65u8, 0x73u8, 0x73u8, 0x61u8, 0x67u8, 0x65u8, 0x73u8,
            ],
            UiOption::ExtMultigrid(_) => seq![
                0x65u8, 0x78u8, 0x74u8, 0x5fu8, 0x6du8, 0x75u8, 0x6cu8, 0x74u8, 0x69u8, 0x67u8, 0x72u8, 0x69u8, 0x64u8,
            ],
            UiOption::ExtPopupmenu(_) => seq![
                0x65u8, 0x78u8, 0x74u8, 0x5fu8, 0x70u8, 0x6fu8, 0x70u8, 0x75u8, 0x70u8, 0x6du8, 0x65u8, 0x6eu8, 0x75u8,
            ],
            UiOption::ExtTabline(_) => seq![
                0x65u8, 0x78u8, 0x74u8, 0x5fu8, 0x74u8, 0x61u8, 0x62u8, 0x6cu8, 0x69u8, 0x6eu8, 0x65u8,
            ],
            UiOption::ExtTermcolors(_) => seq![
                0x65u8, 0x78u8, 0x74u8, 0x5fu8, 0x74u8, 0x65u8, 0x72u8, 0x6du8, 0x63u8, 0x6fu8, 0x6cu8, 0x6fu8, 0x72u8, 0x73u8,
            ],
            UiOption::TermName(_) => seq![
                0x74u8, 0x65u8, 0x72u8, 0x6du8, 0x5fu8, 0x6eu8, 0x61u8, 0x6du8, 0x65u8,
            ],
            UiOption::TermColors(_) => seq![
                0x74u8, 0x65u8, 0x72u8, 0x6du8, 0x5fu8, 0x63u8, 0x6fu8, 0x6cu8, 0x6fu8, 0x72u8, 0x73u8,
            ],
            UiOption::TermBackground(_) => seq![
                0x74u8, 0x65u8, 0x72u8, 0x6du8, 0x5fu8, 0x62u8, 0x61u8, 0x63u8, 0x6bu8, 0x67u8, 0x72u8, 0x6fu8, 0x75u8, 0x6eu8,
                0x64u8,
            ],
            UiOption::StdinFd(_) => seq![
                0x73u8, 0x74u8, 0x64u8, 0x69u8, 0x6eu8, 0x5fu8, 0x66u8, 0x64u8,
            ],
            UiOption::StdinTty(_) => seq![
                0x73u8, 0x74u8, 0x64u8, 0x69u8, 0x6eu8, 0x5fu8, 0x74u8, 0x74u8, 0x79u8,
            ],
            UiOption::StdoutTty(_) => seq![
                0x73u8, 0x74u8, 0x64u8, 0x6fu8, 0x75u8, 0x74u8, 0x5fu8, 0x74u8, 0x74u8, 0x79u8,
            ],
            UiOption::ExtWildmenu(_) => seq![
                0x65u8, 0x78u8, 0x74u8, 0x5fu8, 0x77u8, 0x69u8, 0x6cu8, 0x64u8, 0x6du8, 0x65u8, 0x6eu8, 0x75u8,
            ],
        }
    }

    /// The option's payload as a wire value.
    pub open spec fn value_model(self) -> WireVal {
        match self {
            UiOption::Rgb(b) => WireVal::Bool(b),
            UiOption::Override(b) => WireVal::Bool(b),
            UiOption::ExtCmdline(b) => WireVal::Bool(b),
            UiOption::ExtHlstate(b) => WireVal::Bool(b),
            UiOption::ExtLinegrid(b) => WireVal::Bool(b),
            UiOption::ExtMessages(b) => WireVal::Bool(b),
            UiOption::ExtMultigrid(b) => WireVal::Bool(b),
            UiOption::ExtPopupmenu(b) => WireVal::Bool(b),
            UiOption::ExtTabline(b) => WireVal::Bool(b),
            UiOption::ExtTermcolors(b) => WireVal::Bool(b),
            UiOption::TermName(v) => WireVal::Str(v@),
            UiOption::TermColors(n) => WireVal::Int(n as int),
            UiOption::TermBackground(v) => WireVal::Str(v@),
            UiOption::StdinFd(n) => WireVal::Int(n as int),
            UiOption::StdinTty(b) => WireVal::Bool(b),
            UiOption::StdoutTty(b) => WireVal::Bool(b),
            UiOption::ExtWildmenu(b) => WireVal::Bool(b),
        }
    }

    /// The option's name, as held by executable code.
    pub fn name(&self) -> (r: Vec<u8>)
        ensures
            r@ == self.name_bytes(),
    {
        let mut r: Vec<u8> = Vec::new();
        match self {
            UiOption::Rgb(_) => {
                r.push(0x72u8);
                r.push(0x67u8);
                r.push(0x62u8);
            },
            UiOption::Override(_) => {
                r.push(0x6fu8);
                r.push(0x76u8);
                r.push(0x65u8);
                r.push(0x72u8);
                r.push(0x72u8);
                r.push(0x69u8);
                r.push(0x64u8);
                r.push(0x65u8);
            },
            UiOption::ExtCmdline(_) => {
                r.push(0x65u8);
                r.push(0x78u8);
                r.push(0x74u8);
                r.push(0x5fu8);
                r.push(0x63u8);
                r.push(0x6du8);
                r.push(0x64u8);
                r.push(0x6cu8);
                r.push(0x69u8);
                r.push(0x6eu8);
                r.push(0x65u8);
            },
            UiOption::ExtHlstate(_) => {
                r.push(0x65u8);
                r.push(0x78u8);
                r.push(0x74u8);
                r.push(0x5fu8);
                r.push(0x68u8);
                r.push(0x6cu8);
                r.push(0x73u8);
                r.push(0x74u8);
                r.push(0x61u8);
                r.push(0x74u8);
                r.push(0x65u8);
            },
            UiOption::ExtLinegrid(_) => {
                r.push(0x65u8);
                r.push(0x78u8);
                r.push(0x74u8);
                r.push(0x5fu8);
                r.push(0x6cu8);
                r.push(0x69u8);
                r.push(0x6eu8);
                r.push(0x65u8);
                r.push(0x67u8);
                r.push(0x72u8);
                r.push(0x69u8);
                r.push(0x64u8);
            },
            UiOption::ExtMessages(_) => {
                r.push(0x65u8);
                r.push(0x78u8);
                r.push(0x74u8);
                r.push(0x5fu8);
                r.push(0x6du8);
                r.push(0x65u8);
                r.push(0x73u8);
                r.push(0x73u8);
                r.push(0x61u8);
                r.push(0x67u8);
                r.push(0x65u8);
                r.push(0x73u8);
            },
            UiOption::ExtMultigrid(_) => {
                r.push(0x65u8);
                r.push(0x78u8);
                r.push(0x74u8);
                r.push(0x5fu8);
                r.push(0x6du8);
                r.push(0x75u8);
                r.push(0x6cu8);
                r.push(0x74u8);
                r.push(0x69u8);
                r.push(0x67u8);
                r.push(0x72u8);
                r.push(0x69u8);
                r.push(0x64u8);
            },
            UiOption::ExtPopupmenu(_) => {
                r.push(0x65u8);
                r.push(0x78u8);
                r.push(0x74u8);
                r.push(0x5fu8);
                r.push(0x70u8);
                r.push(0x6fu8);
                r.push(0x70u8);
                r.push(0x75u8);
                r.push(0x70u8);
                r.push(0x6du8);
                r.push(0x65u8);
                r.push(0x6eu8);
                r.push(0x75u8);
            },
            UiOption::ExtTabline(_) => {
                r.push(0x65u8);
                r.push(0x78u8);
                r.push(0x74u8);
                r.push(0x5fu8);
                r.push(0x74u8);
                r.push(0x61u8);
                r.push(0x62u8);
                r.push(0x6cu8);
                r.push(0x69u8);
                r.push(0x6eu8);
                r.push(0x65u8);
            },
            UiOption::ExtTermcolors(_) => {
                r.push(0x65u8);
                r.push(0x78u8);
                r.push(0x74u8);
                r.push(0x5fu8);
                r.push(0x74u8);
                r.push(0x65u8);
                r.push(0x72u8);
                r.push(0x6du8);
                r.push(0x63u8);
                r.push(0x6fu8);
                r.push(0x6cu8);
                r.push(0x6fu8);
                r.push(0x72u8);
                r.push(0x73u8);
            },
            UiOption::TermName(_) => {
                r.push(0x74u8);
                r.push(0x65u8);
                r.push(0x72u8);
                r.push(0x6du8);
                r.push(0x5fu8);
                r.push(0x6eu8);
                r.push(0x61u8);
                r.push(0x6du8);
                r.push(0x65u8);
            },
            UiOption::TermColors(_) => {
                r.push(0x74u8);
                r.push(0x65u8);
                r.push(0x72u8);
                r.push(0x6du8);
                r.push(0x5fu8);
                r.push(0x63u8);
                r.push(0x6fu8);
                r.push(0x6cu8);
                r.push(0x6fu8);
                r.push(0x72u8);
                r.push(0x73u8);
            },
            UiOption::TermBackground(_) => {
                r.push(0x74u8);
                r.push(0x65u8);
                r.push(0x72u8);
                r.push(0x6du8);
                r.push(0x5fu8);
                r.push(0x62u8);
                r.push(0x61u8);
                r.push(0x63u8);
                r.push(0x6bu8);
                r.push(0x67u8);
                r.push(0x72u8);
                r.push(0x6fu8);
                r.push(0x75u8);
                r.push(0x6eu8);
                r.push(0x64u8);
            },
            UiOption::StdinFd(_) => {
                r.push(0x73u8);
                r.push(0x74u8);
                r.push(0x64u8);
                r.push(0x69u8);
                r.push(0x6eu8);
                r.push(0x5fu8);
                r.push(0x66u8);
                r.push(0x64u8);
            },
            UiOption::StdinTty(_) => {
                r.push(0x73u8);
                r.push(0x74u8);
                r.push(0x64u8);
                r.push(0x69u8);
                r.push(0x6eu8);
                r.push(0x5fu8);
                r.push(0x74u8);
                r.push(0x74u8);
                r.push(0x79u8);
            },
            UiOption::StdoutTty(_) => {
                r.push(0x73u8);
                r.push(0x74u8);
                r.push(0x64u8);
                r.push(0x6fu8);
                r.push(0x75u8);
                r.push(0x74u8);
                r.push(0x5fu8);
                r.push(0x74u8);
                r.push(0x74u8);
                r.push(0x79u8);
            },
            UiOption::ExtWildmenu(_) => {
                r.push(0x65u8);
                r.push(0x78u8);
                r.push(0x74u8);
                r.push(0x5fu8);
                r.push(0x77u8);
                r.push(0x69u8);
                r.push(0x6cu8);
                r.push(0x64u8);
                r.push(0x6du8);
                r.push(0x65u8);
                r.push(0x6eu8);
                r.push(0x75u8);
            },
        }
        proof {
            assert(r@ =~= self.name_bytes());
        }
        r
    }

    /// The option's payload, as held by executable code.
    pub fn value(&self) -> (r: WireValue)
        ensures
            r@ == self.value_model(),
    {
        match self {
            UiOption::Rgb(b) => WireValue::Bool(*b),
            UiOption::Override(b) => WireValue::Bool(*b),
            UiOption::ExtCmdline(b) => WireValue::Bool(*b),
            UiOption::ExtHlstate(b) => WireValue::Bool(*b),
            UiOption::ExtLinegrid(b) => WireValue::Bool(*b),
            UiOption::ExtMessages(b) => WireValue::Bool(*b),
            UiOption::ExtMultigrid(b) => WireValue::Bool(*b),
            UiOption::ExtPopupmenu(b) => WireValue::Bool(*b),
            UiOption::ExtTabline(b) => WireValue::Bool(*b),
            UiOption::ExtTermcolors(b) => WireValue::Bool(*b),
            UiOption::TermName(v) => WireValue::Str(copy_bytes(v)),
            UiOption::TermColors(n) => WireValue::Uint(*n),
            UiOption::TermBackground(v) => WireValue::Str(copy_bytes(v)),
            UiOption::StdinFd(n) => WireValue::Uint(*n),
            UiOption::StdinTty(b) => WireValue::Bool(*b),
            UiOption::StdoutTty(b) => WireValue::Bool(*b),
            UiOption::ExtWildmenu(b) => WireValue::Bool(*b),
        }
    }
}

/// A fresh copy of the given bytes.
fn copy_bytes(b: &Vec<u8>) -> (r: Vec<u8>)
    ensures
        r@ == b@,
{
    let mut r: Vec<u8> = Vec::new();
    let mut i: usize = 0;
    while i < b.len()
        invariant
            i <= b@.len(),
            r@ == b@.take(i as int),
        decreases b@.len() - i,
    {
        r.push(b[i]);
        assert(r@ =~= b@.take(i + 1 as int));
        i = i + 1;
    }
    proof {
        assert(r@ =~= b@);
    }
    r
}

/// Whether two byte strings are equal.
fn bytes_equal(a: &Vec<u8>, b: &Vec<u8>) -> (r: bool)
    ensures
        r == (a@ == b@),
{
    if a.len() != b.len() {
        return false;
    }
    let mut i: usize = 0;
    while i < a.len()
        invariant
            a@.len() == b@.len(),
            i <= a@.len(),
            forall|j: int| 0 <= j < i ==> a@[j] == b@[j],
        decreases a@.len() - i,
    {
        if a[i] != b[i] {
            return false;
        }
        i = i + 1;
    }
    proof {
        assert(a@ =~= b@);
    }
    true
}

/// What setting one option does to the list: replace the entry with the
/// same name in place, or append a new entry; every other entry stays.
pub open spec fn set_spec(pre: Seq<UiOption>, post: Seq<UiOption>, option: UiOption) -> bool {
    &&& ((exists|i: int|
        0 <= i < pre.len() && (#[trigger] pre[i]).name_bytes() == option.name_bytes()) ==> {
        &&& post.len() == pre.len()
        &&& forall|i: int|
            0 <= i < pre.len() && (#[trigger] pre[i]).name_bytes() == option.name_bytes()
                ==> post[i] == option
    })
    &&& ((forall|i: int|
        0 <= i < pre.len() ==> (#[trigger] pre[i]).name_bytes() != option.name_bytes()) ==> post
        == pre.push(option))
    &&& (forall|i: int|
        0 <= i < pre.len() && (#[trigger] pre[i]).name_bytes() != option.name_bytes() ==> post[i]
            == pre[i])
}

/// The ordered option set handed to the UI attach call.
pub struct UiAttachOptions {
    options: Vec<UiOption>,
}

/// The map entries an option list lays out on the wire.
pub open spec fn option_pairs(s: Seq<UiOption>) -> Seq<(WireVal, WireVal)> {
    Seq::new(s.len(), |i: int| if 0 <= i < s.len() {
        (WireVal::Str(s[i].name_bytes()), s[i].value_model())
    } else {
        (WireVal::Nil, WireVal::Nil)
    })
}

impl UiAttachOptions {
    /// The options set so far, in the order first set.
    pub closed spec fn opts(self) -> Seq<UiOption> {
        self.options@
    }

    /// No option name occurs twice.
    pub closed spec fn wf(self) -> bool {
        forall|i: int, j: int|
            0 <= i < j < self.options@.len() ==> (#[trigger] self.options@[i]).name_bytes() != (
            #[trigger] self.options@[j]).name_bytes()
    }

    pub fn new() -> (r: UiAttachOptions)
        ensures
            r.wf(),
            r.opts() == Seq::<UiOption>::empty(),
    {
        UiAttachOptions { options: Vec::new() }
    }

    /// Set an option: replace the one with the same name in place, or
    /// append a new entry.
    #[verifier::loop_isolation(false)]
    pub fn set_option(&mut self, option: UiOption)
        requires
            old(self).wf(),
        ensures
            final(self).wf(),
            set_spec(old(self).opts(), final(self).opts(), option),
    {
        let name = option.name();
        let ghost pre = self.options@;
        let mut i: usize = 0;
        while i < self.options.len()
            invariant
                self.options@ == pre,
                i <= pre.len(),
                forall|j: int| 0 <= j < i ==> (#[trigger] pre[j]).name_bytes() != name@,
                name@ == option.name_bytes(),
            decreases pre.len() - i,
        {
            let other = self.options[i].name();
            if bytes_equal(&other, &name) {
                self.options.remove(i);
                self.options.insert(i, option);
                proof {
                    assert(self.options@ =~= pre.update(i as int, option));
                    assert(pre[i as int].name_bytes() == option.name_bytes());
                    assert forall|a: int, b: int|
                        0 <= a < b < self.options@.len() implies (
                    #[trigger] self.options@[a]).name_bytes() != (
                    #[trigger] self.options@[b]).name_bytes() by {
                        if a != i && b != i {
                            assert(self.options@[a] == pre[a] && self.options@[b] == pre[b]);
                        } else if a == i {
                            assert(self.options@[b] == pre[b]);
                            assert(pre[a].name_bytes() != pre[b].name_bytes());
                        } else {
                            assert(self.options@[a] == pre[a]);
                            assert(pre[a].name_bytes() != pre[b].name_bytes());
                        }
                    }
                    assert forall|j: int|
                        0 <= j < pre.len() && (#[trigger] pre[j]).name_bytes()
                            == option.name_bytes() implies self.options@[j] == option by {
                        if j != i {
                            assert(pre[j].name_bytes() != pre[i as int].name_bytes());
                        }
                    }
                }
                return ;
            }
            i = i + 1;
        }
        self.options.push(option);
        proof {
            assert forall|a: int, b: int|
                0 <= a < b < self.options@.len() implies (
            #[trigger] self.options@[a]).name_bytes() != (
            #[trigger] self.options@[b]).name_bytes() by {
                if b == pre.len() {
                    assert(self.options@[a] == pre[a]);
                }
            }
        }
    }

    /// Lay the options out as the wire map the attach call takes.
    pub fn to_value_map(&self) -> (r: WireValue)
        ensures
            r@ == WireVal::Dict(option_pairs(self.opts())),
    {
        let mut pairs: Vec<(WireValue, WireValue)> = Vec::new();
        let mut i: usize = 0;
        while i < self.options.len()
            invariant
                i <= self.options@.len(),
                crate::value::pair_models(pairs@) == option_pairs(self.options@.take(i as int)),
                pairs@.len() == i,
            decreases self.options@.len() - i,
        {
            let name = self.options[i].name();
            let value = self.options[i].value();
            let ghost pp = pairs@;
            let entry = (WireValue::Str(name), value);
            pairs.push(entry);
            proof {
                crate::value::lemma_pair_models_push(pp, entry);
                assert(option_pairs(self.options@.take(i + 1 as int)) =~= crate::value::pair_models(
                    pp,
                ).push((entry.0@, entry.1@)));
            }
            i = i + 1;
        }
        proof {
            assert(self.options@.take(self.options@.len() as int) =~= self.options@);
        }
        proof {
            crate::value::lemma_dict_model(pairs);
        }
        WireValue::Dict(pairs)
    }

    pub fn set_rgb(&mut self, val: bool)
        requires
            old(self).wf(),
        ensures
            final(self).wf(),
            set_spec(old(self).opts(), final(self).opts(), UiOption::Rgb(val)),
    {
        self.set_option(UiOption::Rgb(val));
    }

    pub fn set_override(&mut self, val: bool)
        requires
            old(self).wf(),
        ensures
            final(self).wf(),
            set_spec(old(self).opts(), final(self).opts(), UiOption::Override(val)),
    {
        self.set_option(UiOption::Override(val));
    }

    pub fn set_cmdline_external(&mut self, val: bool)
        requires
            old(self).wf(),
        ensures
            final(self).wf(),
            set_spec(old(self).opts(), final(self).opts(), UiOption::ExtCmdline(val)),
    {
        self.set_option(UiOption::ExtCmdline(val));
    }

    pub fn set_hlstate_external(&mut self, val: bool)
        requires
            old(self).wf(),
        ensures
            final(self).wf(),
            set_spec(old(self).opts(), final(self).opts(), UiOption::ExtHlstate(val)),
    {
        self.set_option(UiOption::ExtHlstate(val));
    }

    pub fn set_linegrid_external(&mut self, val: bool)
        requires
            old(self).wf(),
        ensures
            final(self).wf(),
            set_spec(old(self).opts(), final(self).opts(), UiOption::ExtLinegrid(val)),
    {
        self.set_option(UiOption::ExtLinegrid(val));
    }

    pub fn set_messages_external(&mut self, val: bool)
        requires
            old(self).wf(),
        ensures
            final(self).wf(),
            set_spec(old(self).opts(), final(self).opts(), UiOption::ExtMessages(val)),
    {
        self.set_option(UiOption::ExtMessages(val));
    }

    pub fn set_multigrid_external(&mut self, val: bool)
        requires
            old(self).wf(),
        ensures
            final(self).wf(),
            set_spec(old(self).opts(), final(self).opts(), UiOption::ExtMultigrid(val)),
    {
        self.set_option(UiOption::ExtMultigrid(val));
    }

    pub fn set_popupmenu_external(&mut self, val: bool)
        requires
            old(self).wf(),
        ensures
            final(self).wf(),
            set_spec(old(self).opts(), final(self).opts(), UiOption::ExtPopupmenu(val)),
    {
        self.set_option(UiOption::ExtPopupmenu(val));
    }

    pub fn set_tabline_external(&mut self, val: bool)
        requires
            old(self).wf(),
        ensures
            final(self).wf(),
            set_spec(old(self).opts(), final(self).opts(), UiOption::ExtTabline(val)),
    {
        self.set_option(UiOption::ExtTabline(val));
    }

    pub fn set_termcolors_external(&mut self, val: bool)
        requires
            old(self).wf(),
        ensures
            final(self).wf(),
            set_spec(old(self).opts(), final(self).opts(), UiOption::ExtTermcolors(val)),
    {
        self.set_option(UiOption::ExtTermcolors(val));
    }

    pub fn set_term_name(&mut self, val: Vec<u8>)
        requires
            old(self).wf(),
        ensures
            final(self).wf(),
            set_spec(old(self).opts(), final(self).opts(), UiOption::TermName(val)),
    {
        self.set_option(UiOption::TermName(val));
    }

    pub fn set_term_colors(&mut self, val: u64)
        requires
            old(self).wf(),
        ensures
            final(self).wf(),
            set_spec(old(self).opts(), final(self).opts(), UiOption::TermColors(val)),
    {
        self.set_option(UiOption::TermColors(val));
    }

    pub fn set_term_background(&mut self, val: Vec<u8>)
        requires
            old(self).wf(),
        ensures
            final(self).wf(),
            set_spec(old(self).opts(), final(self).opts(), UiOption::TermBackground(val)),
    {
        self.set_option(UiOption::TermBackground(val));
    }

    pub fn set_stdin_fd(&mut self, val: u64)
        requires
            old(self).wf(),
        ensures
            final(self).wf(),
            set_spec(old(self).opts(), final(self).opts(), UiOption::StdinFd(val)),
    {
        self.set_option(UiOption::StdinFd(val));
    }

    pub fn set_stdin_tty(&mut self, val: bool)
        requires
            old(self).wf(),
        ensures
            final(self).wf(),
            set_spec(old(self).opts(), final(self).opts(), UiOption::StdinTty(val)),
    {
        self.set_option(UiOption::StdinTty(val));
    }

    pub fn set_stdout_tty(&mut self, val: bool)
        requires
            old(self).wf(),
        ensures
            final(self).wf(),
            set_spec(old(self).opts(), final(self).opts(), UiOption::StdoutTty(val)),
    {
        self.set_option(UiOption::StdoutTty(val));
    }

    pub fn set_wildmenu_external(&mut self, val: bool)
        requires
            old(self).wf(),
        ensures
            final(self).wf(),
            set_spec(old(self).opts(), final(self).opts(), UiOption::ExtWildmenu(val)),
    {
        self.set_option(UiOption::ExtWildmenu(val));
    }
}

} // verus!
