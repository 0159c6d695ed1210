//! The exclusion set: exact entry names to skip during rendering.

use vstd::prelude::*;
use vstd::string::StrSliceExecFns;
use vstd::string::StringExecFns;

verus! {

/// The char index of the first comma of `s` at or after `start`, or
/// `s.len()` when there is none.
pub open spec fn next_comma(s: Seq<char>, start: int) -> int
    decreases s.len() - start,
{
    if start < 0 || start >= s.len() {
        s.len() as int
    } else if s[start] == ',' {
        start
    } else {
        next_comma(s, start + 1)
    }
}

pub proof fn lemma_next_comma_bounds(s: Seq<char>, start: int)
    requires
        0 <= start <= s.len(),
    ensures
        start <= next_comma(s, start) <= s.len(),
    decreases s.len() - start,
{
    if start < s.len() && s[start] != ',' {
        lemma_next_comma_bounds(s, start + 1);
    }
}

/// The comma-separated parts of `s` from char index `start` on, exactly as
/// splitting on `','` yields them: empty segments stay, nothing is trimmed.
pub open spec fn csv_parts_from(s: Seq<char>, start: int) -> Seq<Seq<char>>
    decreases s.len() - start,
    when 0 <= start <= s.len()
    via csv_parts_from_dec
{
    let k = next_comma(s, start);
    if k >= s.len() {
        seq![s.subrange(start, s.len() as int)]
    } else {
        seq![s.subrange(start, k)] + csv_parts_from(s, k + 1)
    }
}

#[via_fn]
proof fn csv_parts_from_dec(s: Seq<char>, start: int) {
    lemma_next_comma_bounds(s, start);
}

/// All comma-separated parts of `s`.
pub open spec fn csv_parts(s: Seq<char>) -> Seq<Seq<char>> {
    csv_parts_from(s, 0)
}

/// The fixed default exclusions: common build artefacts and tool folders.
pub open spec fn default_excludes() -> Set<Seq<char>> {
    set![
        "node_modules"@,
        ".next"@,
        ".vscode"@,
        ".idea"@,
        ".git"@,
        "target"@,
        "Cargo.lock"@,
        "zig-cache"@,
        "zig-out"@,
        "vendor"@,
        "go.sum"@,
        "DerivedData"@,
        ".svelte-kit"@,
    ]
}

/// The char index of the first comma of `s` at or after `start`, or `n`
/// (the char length of `s`) when there is none.
fn find_comma(s: &str, start: usize, n: usize) -> (r: usize)
    requires
        n == s@.len(),
        start <= n,
    ensures
        r == next_comma(s@, start as int),
        start <= r <= n,
{
    proof {
        lemma_next_comma_bounds(s@, start as int);
    }
    let mut i: usize = start;
    while i < n
        invariant
            n == s@.len(),
            start <= i <= n,
            next_comma(s@, start as int) == next_comma(s@, i as int),
        decreases n - i,
    {
        if s.get_char(i) == ',' {
            return i;
        }
        i += 1;
    }
    i
}

/// The set of names denoted by a sequence of name strings.
pub open spec fn names_view(names: Seq<String>) -> Set<Seq<char>> {
    Set::new(|s: Seq<char>| exists|i: int| 0 <= i < names.len() && #[trigger] names[i]@ == s)
}

/// A collection of exact entry names (no paths, no wildcards) that the
/// renderer skips.  Membership is case-sensitive string equality.
pub struct ExclusionSet {
    names: Vec<String>,
}

impl View for ExclusionSet {
    type V = Set<Seq<char>>;

    closed spec fn view(&self) -> Set<Seq<char>> {
        names_view(self.names@)
    }
}

impl ExclusionSet {
    /// An empty exclusion set.
    pub fn new() -> (r: ExclusionSet)
        ensures
            r@ == Set::<Seq<char>>::empty(),
    {
        let r = ExclusionSet { names: Vec::new() };
        proof {
            assert(r@ =~= Set::<Seq<char>>::empty());
        }
        r
    }

    /// Exact membership test against one name.
    pub fn contains(&self, name: &String) -> (r: bool)
        ensures
            r == self@.contains(name@),
    {
        let n = self.names.len();
        let mut i: usize = 0;
        while i < n
            invariant
                n == self.names.len(),
                i <= n,
                forall|j: int| 0 <= j < i ==> self.names@[j]@ != name@,
            decreases n - i,
        {
            if self.names[i] == *name {
                return true;
            }
            i += 1;
        }
        false
    }

    /// Insert one name.  A name already present is not stored again, so
    /// the listing under [`Self::names`] shows each name once.
    pub fn add(&mut self, name: String)
        ensures
            final(self)@ == old(self)@.insert(name@),
    {
        if self.contains(&name) {
            proof {
                assert(final(self)@ =~= old(self)@.insert(name@));
            }
            return ;
        }
        let ghost pre = self.names@;
        self.names.push(name);
        proof {
            assert forall|s: Seq<char>| final(self)@.contains(s) implies old(self)@.insert(
                name@,
            ).contains(s) by {
                let i = choose|i: int| 0 <= i < self.names@.len() && #[trigger] self.names@[i]@
                    == s;
                if i < pre.len() {
                    assert(pre[i]@ == s);
                }
            }
            assert forall|s: Seq<char>| old(self)@.insert(name@).contains(s) implies final(self)@.contains(s) by {
                if old(self)@.contains(s) {
                    let i = choose|i: int| 0 <= i < pre.len() && #[trigger] pre[i]@ == s;
                    assert(self.names@[i]@ == s);
                } else {
                    assert(self.names@[pre.len() as int]@ == s);
                }
            }
            assert(final(self)@ =~= old(self)@.insert(name@));
        }
    }

    /// Delete one name: afterwards the set no longer contains it.
    pub fn remove(&mut self, name: &String)
        ensures
            final(self)@ == old(self)@.remove(name@),
    {
        let ghost pre = self.names@;
        let n = self.names.len();
        let mut kept: Vec<String> = Vec::new();
        let mut i: usize = 0;
        while i < n
            invariant
                n == pre.len(),
                self.names@ == pre,
                i <= n,
                forall|k: int|
                    0 <= k < kept@.len() ==> #[trigger] kept@[k]@ != name@ && exists|j: int|
                        0 <= j < i && pre[j]@ == kept@[k]@,
                forall|j: int|
                    0 <= j < i ==> (#[trigger] pre[j])@ == name@ || exists|k: int|
                        0 <= k < kept@.len() && #[trigger] kept@[k]@ == pre[j]@,
            decreases n - i,
        {
            let ghost kept0 = kept@;
            if !(self.names[i] == *name) {
                kept.push(self.names[i].clone());
                proof {
                    assert(kept@[kept@.len() - 1]@ == pre[i as int]@);
                }
            }
            proof {
                assert forall|j: int|
                    0 <= j < i + 1 && pre[j]@ != name@ implies exists|k: int|
                        0 <= k < kept@.len() && #[trigger] kept@[k]@ == pre[j]@ by {
                    if j < i {
                        let k = choose|k: int| 0 <= k < kept0.len() && #[trigger] kept0[k]@
                            == pre[j]@;
                        assert(kept@[k]@ == pre[j]@);
                    } else {
                        assert(kept@[kept@.len() - 1]@ == pre[j]@);
                    }
                }
            }
            i += 1;
        }
        let ghost keptv = kept@;
        self.names = kept;
        proof {
            assert(self.names@ == keptv);
            assert forall|s: Seq<char>| final(self)@.contains(s) implies old(self)@.remove(
                name@,
            ).contains(s) by {
                let k = choose|k: int| 0 <= k < self.names@.len() && #[trigger] self.names@[k]@
                    == s;
                assert(keptv[k]@ != name@ && exists|j: int|
                    0 <= j < n && pre[j]@ == keptv[k]@);
                let j = choose|j: int| 0 <= j < n && pre[j]@ == keptv[k]@;
                assert(pre[j]@ == s);
            }
            assert forall|s: Seq<char>| old(self)@.remove(name@).contains(s) implies final(self)@.contains(s) by {
                let j = choose|j: int| 0 <= j < pre.len() && #[trigger] pre[j]@ == s;
                assert((pre[j])@ == name@ || exists|k: int|
                    0 <= k < keptv.len() && #[trigger] keptv[k]@ == pre[j]@);
                let k = choose|k: int| 0 <= k < keptv.len() && #[trigger] keptv[k]@ == pre[j]@;
                assert(self.names@[k]@ == s);
            }
            assert(final(self)@ =~= old(self)@.remove(name@));
        }
    }

    /// Empty the set.
    pub fn clear(&mut self)
        ensures
            final(self)@ == Set::<Seq<char>>::empty(),
    {
        self.names = Vec::new();
        proof {
            assert(final(self)@ =~= Set::<Seq<char>>::empty());
        }
    }

    /// The fixed default set: always applied before any user additions.
    pub fn build_default() -> (r: ExclusionSet)
        ensures
            r@ == default_excludes(),
    {
        let mut r = ExclusionSet::new();
        r.add_defaults();
        proof {
            assert(r@ =~= default_excludes());
        }
        r
    }

    /// Insert the fixed default names into this set; they are always
    /// applied, whatever else the user chose.
    pub fn add_defaults(&mut self)
        ensures
            final(self)@ == old(self)@.union(default_excludes()),
    {
        self.add(String::from_str("node_modules"));
        self.add(String::from_str(".next"));
        self.add(String::from_str(".vscode"));
        self.add(String::from_str(".idea"));
        self.add(String::from_str(".git"));
        self.add(String::from_str("target"));
        self.add(String::from_str("Cargo.lock"));
        self.add(String::from_str("zig-cache"));
        self.add(String::from_str("zig-out"));
        self.add(String::from_str("vendor"));
        self.add(String::from_str("go.sum"));
        self.add(String::from_str("DerivedData"));
        self.add(String::from_str(".svelte-kit"));
        proof {
            assert(final(self)@ =~= old(self)@.union(default_excludes()));
        }
    }

    /// Split `patterns` on commas and insert every part verbatim as an
    /// exact-match name; empty segments insert the empty name.
    pub fn add_from_csv(&mut self, patterns: &str)
        ensures
            final(self)@ == old(self)@.union(csv_parts(patterns@).to_set()),
    {
        let ghost orig = old(self)@;
        let n = patterns.unicode_len();
        let mut start: usize = 0;
        let ghost mut taken: Seq<Seq<char>> = Seq::empty();
        loop
            invariant_except_break
                csv_parts(patterns@) == taken + csv_parts_from(patterns@, start as int),
            invariant
                n == patterns@.len(),
                start <= n,
                self@ == orig.union(taken.to_set()),
                orig == old(self)@,
            ensures
                taken == csv_parts(patterns@),
            decreases n - start,
        {
            let k = find_comma(patterns, start, n);
            let part = patterns.substring_char(start, k);
            let ghost pre = self@;
            let ghost taken0 = taken;
            self.add(String::from_str(part));
            proof {
                taken = taken.push(part@);
                assert(taken.to_set() =~= taken0.to_set().insert(part@)) by {
                    assert forall|x: Seq<char>| taken.contains(x) implies taken0.contains(x) || x
                        == part@ by {
                        let i = choose|i: int| 0 <= i < taken.len() && taken[i] == x;
                        if i < taken0.len() {
                            assert(taken0[i] == x);
                        }
                    }
                    assert(forall|i: int|
                        0 <= i < taken0.len() ==> taken[i] == #[trigger] taken0[i]);
                    assert(taken[taken0.len() as int] == part@);
                }
                assert(self@ =~= orig.union(taken.to_set()));
            }
            if k == n {
                proof {
                    assert(csv_parts_from(patterns@, start as int) =~= seq![part@]);
                    assert(taken =~= taken0 + seq![part@]);
                    assert(csv_parts(patterns@) =~= taken);
                }
                break;
            }
            proof {
                assert(csv_parts_from(patterns@, start as int) == seq![part@] + csv_parts_from(
                    patterns@,
                    k + 1,
                ));
                assert(taken0 + (seq![part@] + csv_parts_from(patterns@, k + 1)) =~= taken
                    + csv_parts_from(patterns@, k + 1));
            }
            start = k + 1;
        }
    }

    /// The names currently in the set, in insertion order (duplicates
    /// possible); for display only.
    pub fn names(&self) -> (r: &Vec<String>)
        ensures
            names_view(r@) == self@,
    {
        &self.names
    }
}

/// Membership is exactly the history of edits: a name is in the set iff
/// it was inserted (as a default, from a comma-separated list, or singly)
/// and not since removed, and a cleared set holds nothing until a name is
/// inserted again.  Insertions and removals of other names do not touch
/// it.
pub proof fn lemma_membership(s: Set<Seq<char>>, x: Seq<char>, y: Seq<char>)
    ensures
        s.insert(x).contains(x),
        !s.remove(x).contains(x),
        !Set::<Seq<char>>::empty().contains(x),
        Set::<Seq<char>>::empty().insert(x).contains(x),
        x != y ==> s.insert(y).contains(x) == s.contains(x),
        x != y ==> s.remove(y).contains(x) == s.contains(x),
{
}

/// True when `name` is in the exclusion set and must be skipped.
pub fn should_exclude(name: &String, exclude_patterns: &ExclusionSet) -> (r: bool)
    ensures
        r == exclude_patterns@.contains(name@),
{
    exclude_patterns.contains(name)
}

} // verus!
