//! The decisions of the interactive exclusion-editing loop.
//!
//! The loop itself (listing the directory, reading lines, printing
//! feedback) is unverified glue; everything it decides — how an ID line
//! edits the exclusion set, which feedback each token earns, and what the
//! final menu choice means — is here, as functions from the line and the
//! listed names to the new set and the actions to perform.

use vstd::prelude::*;
use crate::excl::ExclusionSet;
use crate::text::parse_index;
use crate::text::parse_index_spec;
use crate::text::split_whitespace_tokens;
use crate::text::trim;
use crate::text::trimmed;
use crate::text::ws_tokens;

verus! {

/// The feedback one ID token earns.
#[derive(Clone, Debug)]
pub enum IdEvent {
    /// The 1-based index was in range: its name was added to the set.
    Added(String),
    /// The 1-based index after `-` was in range: its name was removed.
    Removed(String),
    /// The index was out of range: report it and continue.
    InvalidId(String),
}

/// The mathematical shape of an [`IdEvent`].
pub ghost enum IdEventV {
    Added(Seq<char>),
    Removed(Seq<char>),
    InvalidId(Seq<char>),
}

impl DeepView for IdEvent {
    type V = IdEventV;

    open spec fn deep_view(&self) -> IdEventV {
        match self {
            IdEvent::Added(s) => IdEventV::Added(s@),
            IdEvent::Removed(s) => IdEventV::Removed(s@),
            IdEvent::InvalidId(s) => IdEventV::InvalidId(s@),
        }
    }
}

/// The state an ID line builds up: the edited set, the feedback so far,
/// and whether every token so far parsed (a token that does not parse is
/// fatal to the whole run).
pub ghost struct IdsStateV {
    pub set: Set<Seq<char>>,
    pub events: Seq<IdEventV>,
    pub ok: bool,
}

/// How one whitespace token edits the state: `-<id>` removes the id-th
/// listed name, a plain `<id>` adds it, an out-of-range id only reports,
/// and a token whose numeric part does not parse stops everything.
pub open spec fn apply_token(st: IdsStateV, tok: Seq<char>, names: Seq<Seq<char>>) -> IdsStateV {
    if !st.ok {
        st
    } else if tok.len() > 0 && tok[0] == '-' {
        match parse_index_spec(tok.drop_first()) {
            Option::None => IdsStateV { ok: false, ..st },
            Option::Some(id) => {
                if 1 <= id && id <= names.len() {
                    IdsStateV {
                        set: st.set.remove(names[id - 1]),
                        events: st.events.push(IdEventV::Removed(names[id - 1])),
                        ok: true,
                    }
                } else {
                    IdsStateV { events: st.events.push(IdEventV::InvalidId(tok)), ..st }
                }
            },
        }
    } else {
        match parse_index_spec(tok) {
            Option::None => IdsStateV { ok: false, ..st },
            Option::Some(id) => {
                if 1 <= id && id <= names.len() {
                    IdsStateV {
                        set: st.set.insert(names[id - 1]),
                        events: st.events.push(IdEventV::Added(names[id - 1])),
                        ok: true,
                    }
                } else {
                    IdsStateV { events: st.events.push(IdEventV::InvalidId(tok)), ..st }
                }
            },
        }
    }
}

/// Fold [`apply_token`] over the tokens, left to right.
pub open spec fn apply_tokens(st: IdsStateV, toks: Seq<Seq<char>>, names: Seq<Seq<char>>) -> IdsStateV
    decreases toks.len(),
{
    if toks.len() == 0 {
        st
    } else {
        apply_tokens(apply_token(st, toks[0], names), toks.drop_first(), names)
    }
}

pub proof fn lemma_apply_tokens_snoc(st: IdsStateV, toks: Seq<Seq<char>>, t: Seq<char>, names: Seq<
    Seq<char>,
>)
    ensures
        apply_tokens(st, toks.push(t), names) == apply_token(apply_tokens(st, toks, names), t, names),
    decreases toks.len(),
{
    let p = toks.push(t);
    assert(p.len() == toks.len() + 1);
    assert(apply_tokens(st, p, names) == apply_tokens(apply_token(st, p[0], names), p.drop_first(), names));
    if toks.len() == 0 {
        assert(p.drop_first() =~= Seq::<Seq<char>>::empty());
        assert(p[0] == t);
        assert(apply_tokens(apply_token(st, t, names), Seq::<Seq<char>>::empty(), names)
            == apply_token(st, t, names));
        assert(apply_tokens(st, toks, names) == st);
    } else {
        assert(p[0] == toks[0]);
        assert(p.drop_first() =~= toks.drop_first().push(t));
        lemma_apply_tokens_snoc(apply_token(st, toks[0], names), toks.drop_first(), t, names);
        assert(apply_tokens(st, toks, names) == apply_tokens(
            apply_token(st, toks[0], names),
            toks.drop_first(),
            names,
        ));
    }
}

pub proof fn lemma_apply_tokens_split(
    st: IdsStateV,
    a: Seq<Seq<char>>,
    b: Seq<Seq<char>>,
    names: Seq<Seq<char>>,
)
    ensures
        apply_tokens(st, a + b, names) == apply_tokens(apply_tokens(st, a, names), b, names),
    decreases a.len(),
{
    if a.len() == 0 {
        assert(a + b =~= b);
    } else {
        assert((a + b)[0] == a[0]);
        assert((a + b).drop_first() =~= a.drop_first() + b);
        lemma_apply_tokens_split(apply_token(st, a[0], names), a.drop_first(), b, names);
    }
}

/// A failed parse is fatal: no later token changes anything.
pub proof fn lemma_apply_tokens_stuck(st: IdsStateV, toks: Seq<Seq<char>>, names: Seq<Seq<char>>)
    requires
        !st.ok,
    ensures
        apply_tokens(st, toks, names) == st,
    decreases toks.len(),
{
    if toks.len() > 0 {
        lemma_apply_tokens_stuck(st, toks.drop_first(), names);
    }
}

/// What a whole ID line does to an exclusion set holding `set0`, when the
/// listing shows `names`: the line `clear` (after trimming) empties the
/// set; any other line is split on white space and folded token by token.
pub open spec fn ids_line_spec(line: Seq<char>, names: Seq<Seq<char>>, set0: Set<Seq<char>>) -> IdsStateV {
    if trimmed(line) == "clear"@ {
        IdsStateV { set: Set::empty(), events: Seq::empty(), ok: true }
    } else {
        apply_tokens(
            IdsStateV { set: set0, events: Seq::empty(), ok: true },
            ws_tokens(trimmed(line)),
            names,
        )
    }
}

/// What the loop should do after an ID line.
#[derive(Debug)]
pub enum IdsReply {
    /// The line was `clear`: the set was emptied; report it and re-list.
    Cleared,
    /// Every token parsed: the feedback to print, in token order.
    Events(Vec<IdEvent>),
    /// A token's numeric part did not parse: the run must abort.
    BadToken,
}

/// Apply one interactive ID line to the exclusion set.  `names` are the
/// currently listed entry names, in listing order (IDs are 1-based).
pub fn process_ids_line(line: &String, names: &Vec<String>, excl: &mut ExclusionSet) -> (r:
    IdsReply)
    ensures
        final(excl)@ == ids_line_spec(line@, names.deep_view(), old(excl)@).set,
        r is Cleared <==> trimmed(line@) == "clear"@,
        (r matches IdsReply::Events(ev) ==> ev.deep_view() == ids_line_spec(
            line@,
            names.deep_view(),
            old(excl)@,
        ).events && ids_line_spec(line@, names.deep_view(), old(excl)@).ok),
        r is BadToken <==> !ids_line_spec(line@, names.deep_view(), old(excl)@).ok,
{
    let t = trim(line.as_str());
    if t == String::from_str("clear") {
        excl.clear();
        return IdsReply::Cleared;
    }
    let toks = split_whitespace_tokens(t.as_str());
    let ghost nv = names.deep_view();
    let ghost st0 = IdsStateV { set: excl@, events: Seq::empty(), ok: true };
    let ghost tv = toks.deep_view();
    let mut events: Vec<IdEvent> = Vec::new();
    let n = toks.len();
    let mut i: usize = 0;
    proof {
        assert(tv.subrange(0, 0) =~= Seq::<Seq<char>>::empty());
        assert(events.deep_view() =~= Seq::<IdEventV>::empty());
    }
    while i < n
        invariant
            n == toks@.len(),
            i <= n,
            tv == toks.deep_view(),
            nv == names.deep_view(),
            ids_line_spec(line@, nv, st0.set) == apply_tokens(st0, tv, nv),
            apply_tokens(st0, tv.subrange(0, i as int), nv) == (IdsStateV {
                set: excl@,
                events: events.deep_view(),
                ok: true,
            }),
            old(excl)@ == st0.set,
            st0.events == Seq::<IdEventV>::empty(),
            st0.ok,
        decreases n - i,
    {
        let ghost sti = apply_tokens(st0, tv.subrange(0, i as int), nv);
        proof {
            assert(tv.subrange(0, i + 1) =~= tv.subrange(0, i as int).push(tv[i as int]));
            lemma_apply_tokens_snoc(st0, tv.subrange(0, i as int), tv[i as int], nv);
        }
        let tok = &toks[i];
        let tok_len = tok.as_str().unicode_len();
        let is_removal = tok_len > 0 && tok.as_str().get_char(0) == '-';
        let parsed: Option<usize> = if is_removal {
            let rest = tok.as_str().substring_char(1, tok_len);
            proof {
                assert(rest@ =~= tok@.drop_first());
            }
            parse_index(rest)
        } else {
            parse_index(tok.as_str())
        };
        proof {
            assert(tv[i as int] == tok@);
        }
        match parsed {
            Option::None => {
                proof {
                    let stb = apply_token(sti, tv[i as int], nv);
                    assert(!stb.ok);
                    lemma_apply_tokens_stuck(stb, tv.subrange(i + 1, n as int), nv);
                    assert(tv =~= tv.subrange(0, i + 1) + tv.subrange(i + 1, n as int));
                    lemma_apply_tokens_split(
                        st0,
                        tv.subrange(0, i + 1),
                        tv.subrange(i + 1, n as int),
                        nv,
                    );
                    assert(apply_tokens(st0, tv, nv) == stb);
                }
                return IdsReply::BadToken;
            },
            Option::Some(id) => {
                if 1 <= id && id <= names.len() {
                    let nm = &names[id - 1];
                    proof {
                        assert(nv[id - 1] == nm@);
                    }
                    if is_removal {
                        excl.remove(nm);
                        events.push(IdEvent::Removed(nm.clone()));
                    } else {
                        excl.add(nm.clone());
                        events.push(IdEvent::Added(nm.clone()));
                    }
                } else {
                    events.push(IdEvent::InvalidId(tok.clone()));
                }
                proof {
                    let stn = apply_tokens(st0, tv.subrange(0, i + 1), nv);
                    assert(stn == apply_token(sti, tv[i as int], nv));
                    assert(events.deep_view() =~= stn.events);
                    assert(excl@ == stn.set);
                }
            },
        }
        i += 1;
    }
    proof {
        assert(tv.subrange(0, n as int) =~= tv);
    }
    IdsReply::Events(events)
}

/// The meaning of the post-list menu line.
#[derive(Clone, Copy, PartialEq, Eq, Structural, Debug)]
pub enum ActionChoice {
    /// `y`: leave the loop and generate the tree.
    Generate,
    /// `c`: clear the exclusion set and re-list.
    ClearList,
    /// `m`: re-list for more edits.
    More,
    /// Anything else: report the invalid choice, then re-list.
    Invalid,
}

/// How the trimmed menu line is classified.
pub open spec fn action_of(line: Seq<char>) -> ActionChoice {
    if trimmed(line) == "y"@ {
        ActionChoice::Generate
    } else if trimmed(line) == "c"@ {
        ActionChoice::ClearList
    } else if trimmed(line) == "m"@ {
        ActionChoice::More
    } else {
        ActionChoice::Invalid
    }
}

/// Classify the menu line and perform its one side effect: `c` clears the
/// exclusion set, every other choice leaves it unchanged.
pub fn handle_action(line: &String, excl: &mut ExclusionSet) -> (r: ActionChoice)
    ensures
        r == action_of(line@),
        action_of(line@) is ClearList ==> final(excl)@ == Set::<Seq<char>>::empty(),
        !(action_of(line@) is ClearList) ==> final(excl)@ == old(excl)@,
{
    let t = trim(line.as_str());
    if t == String::from_str("y") {
        ActionChoice::Generate
    } else if t == String::from_str("c") {
        excl.clear();
        ActionChoice::ClearList
    } else if t == String::from_str("m") {
        ActionChoice::More
    } else {
        ActionChoice::Invalid
    }
}

} // verus!
