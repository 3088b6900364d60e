use vstd::prelude::*;
use vstd::string::is_ascii;

verus! {

/// Whether `w` is one of the strings of `strs`.
pub open spec fn listed(strs: Seq<&str>, w: Seq<char>) -> bool {
    exists|k: int| 0 <= k < strs.len() && (#[trigger] strs[k])@ == w
}

/// Whether every string of `strs` is ASCII.
pub open spec fn all_ascii(strs: Seq<&str>) -> bool {
    forall|k: int| 0 <= k < strs.len() ==> is_ascii(#[trigger] strs[k])
}

/// The length of the longest string of `strs` (zero where there is none).
pub open spec fn longest(strs: Seq<&str>) -> nat
    decreases strs.len(),
{
    if strs.len() == 0 {
        0
    } else {
        let m = longest(strs.drop_last());
        let n = strs.last()@.len();
        if m >= n {
            m
        } else {
            n
        }
    }
}

proof fn lemma_longest_bounds(strs: Seq<&str>)
    ensures
        forall|k: int| 0 <= k < strs.len() ==> (#[trigger] strs[k])@.len() <= longest(strs),
    decreases strs.len(),
{
    if strs.len() > 0 {
        lemma_longest_bounds(strs.drop_last());
        assert forall|k: int| 0 <= k < strs.len() implies (#[trigger] strs[k])@.len() <= longest(strs) by {
            if k < strs.len() - 1 {
                assert(strs[k] == strs.drop_last()[k]);
            }
        }
    }
}

proof fn lemma_longest_at_most(strs: Seq<&str>, b: nat)
    requires
        forall|k: int| 0 <= k < strs.len() ==> (#[trigger] strs[k])@.len() <= b,
    ensures
        longest(strs) <= b,
    decreases strs.len(),
{
    if strs.len() > 0 {
        assert forall|k: int| 0 <= k < strs.drop_last().len() implies (#[trigger] strs.drop_last()[k])@.len() <= b by {
            assert(strs.drop_last()[k] == strs[k]);
        }
        lemma_longest_at_most(strs.drop_last(), b);
    }
}

/// Whether some string of `strs` begins with `c`.
pub open spec fn begins_some(strs: Seq<&str>, c: char) -> bool {
    exists|q: int| 0 <= q < strs.len() && (#[trigger] strs[q])@.len() > 0 && strs[q]@[0] == c
}

/// Whether some string of `strs` is `c` followed by `w`.
pub open spec fn continues(strs: Seq<&str>, c: char, w: Seq<char>) -> bool {
    exists|q: int|
        0 <= q < strs.len() && (#[trigger] strs[q])@.len() > 0 && strs[q]@[0] == c && strs[q]@.drop_first() == w
}

/// A prefix tree of strings: each node is labelled by a character and tells
/// whether the path of labels from below the root to it spells a word.
#[derive(Debug, PartialEq, Eq)]
pub struct Trie {
    chr: char,
    has: bool,
    children: Vec<Trie>,
}

impl Trie {
    /// No two children of a node share a label, each child's label is
    /// ASCII, and each child stores at least one word.
    #[verifier::type_invariant]
    spec fn locally_sound(self) -> bool {
        &&& forall|i: int, j: int|
            0 <= i < j < self.children.len() ==> (#[trigger] self.children[i]).chr != (#[trigger] self.children[j]).chr
        &&& forall|i: int| 0 <= i < self.children.len() ==> (#[trigger] self.children[i]).chr <= '\u{7f}'
        &&& forall|i: int| 0 <= i < self.children.len() ==> (#[trigger] self.children[i]).stores_some()
    }

    /// Whether at least one word is stored below this node.
    pub closed spec fn stores_some(self) -> bool {
        exists|w: Seq<char>| #[trigger] self.holds(w)
    }

    /// Every node of the trie is sound: distinct ASCII labels below it, and
    /// no child that stores no word.
    pub closed spec fn well_formed(self) -> bool
        decreases self,
    {
        &&& self.locally_sound()
        &&& forall|i: int| 0 <= i < self.children.len() ==> (#[trigger] self.children[i]).well_formed()
    }

    /// The label of this node (the root's is `'\0'`).
    pub closed spec fn label(self) -> char {
        self.chr
    }

    /// Whether this node has a child labelled `c`.
    pub closed spec fn has_child(self, c: char) -> bool {
        exists|i: int| 0 <= i < self.children.len() && (#[trigger] self.children[i]).chr == c
    }

    /// Whether the word `w` is stored below this node.
    pub closed spec fn holds(self, w: Seq<char>) -> bool
        decreases w.len(),
    {
        if w.len() == 0 {
            self.has
        } else {
            exists|i: int|
                0 <= i < self.children.len() && (#[trigger] self.children[i]).chr == w[0]
                    && self.children[i].holds(w.drop_first())
        }
    }

    /// Whether following the labels of `p` from this node, one child per
    /// character, leads to a node.
    pub closed spec fn reaches(self, p: Seq<char>) -> bool
        decreases p.len(),
    {
        if p.len() == 0 {
            true
        } else {
            exists|i: int|
                0 <= i < self.children.len() && (#[trigger] self.children[i]).chr == p[0]
                    && self.children[i].reaches(p.drop_first())
        }
    }

    /// Two tries have the same shape, up to the order of each node's
    /// children: the same root label, the same paths of labels leading to
    /// nodes, and the same words marked at the ends of those paths.
    pub open spec fn same_shape(self, other: Trie) -> bool {
        &&& self.label() == other.label()
        &&& forall|p: Seq<char>| #[trigger] self.reaches(p) == other.reaches(p)
        &&& forall|p: Seq<char>| #[trigger] self.holds(p) == other.holds(p)
    }

    proof fn lemma_holds_via_child(self, k: int, w: Seq<char>)
        requires
            self.locally_sound(),
            0 <= k < self.children.len(),
            w.len() > 0,
            self.children[k].chr == w[0],
        ensures
            self.holds(w) == self.children[k].holds(w.drop_first()),
    {
        if self.holds(w) {
            let i = choose|i: int|
                0 <= i < self.children.len() && (#[trigger] self.children[i]).chr == w[0]
                    && self.children[i].holds(w.drop_first());
            if i < k {
                assert(self.children[i].chr != self.children[k].chr);
            } else if k < i {
                assert(self.children[k].chr != self.children[i].chr);
            }
        }
    }

    proof fn lemma_reaches_via_child(self, k: int, p: Seq<char>)
        requires
            self.locally_sound(),
            0 <= k < self.children.len(),
            p.len() > 0,
            self.children[k].chr == p[0],
        ensures
            self.reaches(p) == self.children[k].reaches(p.drop_first()),
    {
        if self.reaches(p) {
            let i = choose|i: int|
                0 <= i < self.children.len() && (#[trigger] self.children[i]).chr == p[0]
                    && self.children[i].reaches(p.drop_first());
            if i < k {
                assert(self.children[i].chr != self.children[k].chr);
            } else if k < i {
                assert(self.children[k].chr != self.children[i].chr);
            }
        }
    }

    /// In a well-formed trie a non-empty path leads to a node exactly when
    /// some stored word begins with it.
    proof fn lemma_reaches_iff_prefix(self, p: Seq<char>)
        requires
            self.well_formed(),
            p.len() > 0,
        ensures
            self.reaches(p) <==> exists|w: Seq<char>| #[trigger] self.holds(p + w),
        decreases p.len(),
    {
        let c = p[0];
        let rest = p.drop_first();
        if self.reaches(p) {
            let k = choose|i: int|
                0 <= i < self.children.len() && (#[trigger] self.children[i]).chr == p[0]
                    && self.children[i].reaches(p.drop_first());
            let child = self.children[k];
            assert(child.well_formed());
            let w = if rest.len() == 0 {
                assert(child.stores_some());
                choose|w: Seq<char>| #[trigger] child.holds(w)
            } else {
                child.lemma_reaches_iff_prefix(rest);
                choose|w: Seq<char>| #[trigger] child.holds(rest + w)
            };
            assert(child.holds(rest + w)) by {
                if rest.len() == 0 {
                    assert(rest + w =~= w);
                }
            }
            assert((p + w).drop_first() =~= rest + w);
            self.lemma_holds_via_child(k, p + w);
            assert(self.holds(p + w));
        }
        if exists|w: Seq<char>| #[trigger] self.holds(p + w) {
            let w = choose|w: Seq<char>| #[trigger] self.holds(p + w);
            assert((p + w)[0] == c);
            let k = choose|i: int|
                0 <= i < self.children.len() && (#[trigger] self.children[i]).chr == (p + w)[0]
                    && self.children[i].holds((p + w).drop_first());
            let child = self.children[k];
            assert(child.well_formed());
            assert((p + w).drop_first() =~= rest + w);
            if rest.len() > 0 {
                child.lemma_reaches_iff_prefix(rest);
                assert(child.reaches(rest));
            }
            self.lemma_reaches_via_child(k, p);
        }
    }

    /// A well-formed trie is fixed, up to the order of each node's children,
    /// by its label and the words it stores: two well-formed tries with the
    /// same label that store the same words have the same shape.
    pub proof fn same_words_same_shape(a: Trie, b: Trie)
        requires
            a.well_formed(),
            b.well_formed(),
            a.label() == b.label(),
            forall|w: Seq<char>| a.holds(w) == b.holds(w),
        ensures
            a.same_shape(b),
    {
        assert forall|p: Seq<char>| #[trigger] a.reaches(p) == b.reaches(p) by {
            if p.len() > 0 {
                a.lemma_reaches_iff_prefix(p);
                b.lemma_reaches_iff_prefix(p);
                if a.reaches(p) {
                    let w = choose|w: Seq<char>| #[trigger] a.holds(p + w);
                    assert(b.holds(p + w));
                }
                if b.reaches(p) {
                    let w = choose|w: Seq<char>| #[trigger] b.holds(p + w);
                    assert(a.holds(p + w));
                }
            }
        }
    }

    /// Tries built with the same label from lists with the same strings (in
    /// any order, with any repeats) have the same shape.
    pub proof fn same_strings_same_shape(a: Trie, b: Trie, sa: Seq<&str>, sb: Seq<&str>)
        requires
            a.well_formed(),
            b.well_formed(),
            a.label() == b.label(),
            forall|w: Seq<char>| a.holds(w) <==> listed(sa, w),
            forall|w: Seq<char>| b.holds(w) <==> listed(sb, w),
            forall|w: Seq<char>| listed(sa, w) <==> listed(sb, w),
        ensures
            a.same_shape(b),
    {
        Trie::same_words_same_shape(a, b);
    }

    /// Builds the trie that stores exactly the strings of `strs`.
    pub fn new(strs: &Vec<&str>) -> (t: Trie)
        requires
            all_ascii(strs@),
        ensures
            t.label() == '\0',
            t.well_formed(),
            forall|w: Seq<char>| t.holds(w) <==> listed(strs@, w),
            forall|c: char| t.has_child(c) <==> begins_some(strs@, c),
    {
        Trie::build(strs, '\0')
    }

    /// Whether the word `s` is stored in the trie.
    pub fn contains(&self, s: &str) -> (r: bool)
        ensures
            r == self.holds(s@),
        decreases s@.len(),
    {
        proof {
            use_type_invariant(self);
        }
        if s.is_empty() {
            return self.has;
        }
        let chr = s.get_char(0);
        let mut i: usize = 0;
        while i < self.children.len()
            invariant
                i <= self.children.len(),
                s@.len() > 0,
                chr == s@[0],
                self.locally_sound(),
                forall|j: int| 0 <= j < i ==> (#[trigger] self.children[j]).chr != chr,
            decreases self.children.len() - i,
        {
            let child = &self.children[i];
            if child.chr == chr {
                let rest = s.substring_char(1, s.unicode_len());
                let r = child.contains(rest);
                proof {
                    assert(rest@ =~= s@.drop_first());
                    if self.holds(s@) {
                        let j = choose|j: int|
                            0 <= j < self.children.len() && (#[trigger] self.children[j]).chr == s@[0]
                                && self.children[j].holds(s@.drop_first());
                        assert(j == i as int);
                    }
                }
                return r;
            }
            i = i + 1;
        }
        false
    }

    /// Builds the node labelled `chr` below which exactly the strings of
    /// `strs` are stored.
    pub fn build(strs: &Vec<&str>, chr: char) -> (t: Trie)
        requires
            all_ascii(strs@),
        ensures
            t.label() == chr,
            t.well_formed(),
            forall|w: Seq<char>| t.holds(w) <==> listed(strs@, w),
            forall|c: char| t.has_child(c) <==> begins_some(strs@, c),
        decreases longest(strs@),
    {
        let n = strs.len();
        let fc = Trie::first_chars(strs);
        let mut has = false;
        let mut k: usize = 0;
        while k < n
            invariant
                n == strs.len(),
                k <= n,
                has <==> exists|q: int| 0 <= q < k && (#[trigger] strs@[q])@.len() == 0,
            decreases n - k,
        {
            if strs[k].is_empty() {
                has = true;
            }
            k = k + 1;
        }
        proof {
            lemma_longest_bounds(strs@);
        }
        let mut children: Vec<Trie> = Vec::new();
        let mut j: usize = 0;
        while j < fc.len()
            invariant
                j <= fc.len(),
                children.len() == j,
                all_ascii(strs@),
                forall|q: int| 0 <= q < strs.len() ==> (#[trigger] strs@[q])@.len() <= longest(strs@),
                forall|i: int| 0 <= i < fc.len() ==> begins_some(strs@, #[trigger] fc@[i]),
                forall|i: int| 0 <= i < j ==> (#[trigger] children[i]).chr == fc[i],
                forall|i: int, w: Seq<char>|
                    0 <= i < j ==> (#[trigger] children[i].holds(w) <==> continues(strs@, fc[i], w)),
                forall|i: int| 0 <= i < j ==> (#[trigger] children[i]).well_formed() && children[i].stores_some(),
            decreases fc.len() - j,
        {
            let c = fc[j];
            let group = Trie::strip_first(strs, c);
            proof {
                assert(begins_some(strs@, fc@[j as int]));
                let q = choose|q: int|
                    0 <= q < strs@.len() && (#[trigger] strs@[q])@.len() > 0 && strs@[q]@[0] == fc[j as int];
                assert(strs@[q]@.len() <= longest(strs@));
                lemma_longest_at_most(group@, (longest(strs@) - 1) as nat);
            }
            let child = Trie::build(&group, c);
            proof {
                let q = choose|q: int|
                    0 <= q < strs@.len() && (#[trigger] strs@[q])@.len() > 0 && strs@[q]@[0] == fc[j as int];
                assert(continues(strs@, c, strs@[q]@.drop_first()));
                assert(child.holds(strs@[q]@.drop_first()));
            }
            children.push(child);
            j = j + 1;
        }
        let t = Trie { chr, has, children };
        assert forall|c: char| t.has_child(c) <==> begins_some(strs@, c) by {
            if begins_some(strs@, c) {
                let q = choose|q: int| 0 <= q < strs@.len() && (#[trigger] strs@[q])@.len() > 0 && strs@[q]@[0] == c;
                assert(fc@.contains(strs@[q]@[0]));
                let i = choose|i: int| 0 <= i < fc.len() && fc@[i] == c;
                assert(t.children[i].chr == c);
            }
            if t.has_child(c) {
                let i = choose|i: int| 0 <= i < t.children.len() && (#[trigger] t.children[i]).chr == c;
                assert(begins_some(strs@, fc@[i]));
            }
        }
        assert(t.well_formed());
        assert forall|w: Seq<char>| t.holds(w) <==> listed(strs@, w) by {
            if w.len() == 0 {
                if t.holds(w) {
                    let q = choose|q: int| 0 <= q < n && (#[trigger] strs@[q])@.len() == 0;
                    assert(strs@[q]@ =~= w);
                }
                if listed(strs@, w) {
                    let q = choose|q: int| 0 <= q < strs@.len() && (#[trigger] strs@[q])@ == w;
                    assert(strs@[q]@.len() == 0);
                }
            } else {
                if t.holds(w) {
                    let i = choose|i: int|
                        0 <= i < t.children.len() && (#[trigger] t.children[i]).chr == w[0]
                            && t.children[i].holds(w.drop_first());
                    assert(continues(strs@, fc[i], w.drop_first()));
                    let q = choose|q: int|
                        0 <= q < strs.len() && (#[trigger] strs@[q])@.len() > 0 && strs@[q]@[0] == fc[i]
                            && strs@[q]@.drop_first() == w.drop_first();
                    let sq = strs@[q]@;
                    assert(sq.len() == w.len());
                    assert forall|x: int| 0 <= x < w.len() implies sq[x] == w[x] by {
                        if x > 0 {
                            assert(sq[x] == sq.drop_first()[x - 1]);
                            assert(w[x] == w.drop_first()[x - 1]);
                        }
                    }
                    assert(sq =~= w);
                }
                if listed(strs@, w) {
                    let q = choose|q: int| 0 <= q < strs@.len() && (#[trigger] strs@[q])@ == w;
                    assert(fc@.contains(w[0]));
                    let i = choose|i: int| 0 <= i < fc.len() && fc@[i] == w[0];
                    assert(continues(strs@, fc[i], w.drop_first()));
                    assert(t.children[i].holds(w.drop_first()));
                }
            }
        }
        t
    }

    /// The distinct first characters of the non-empty strings of `strs`, in
    /// the order in which they first occur.
    fn first_chars(strs: &Vec<&str>) -> (fc: Vec<char>)
        requires
            all_ascii(strs@),
        ensures
            forall|i: int, j: int| 0 <= i < j < fc.len() ==> fc[i] != fc[j],
            forall|i: int| 0 <= i < fc.len() ==> fc[i] <= '\u{7f}',
            forall|i: int| 0 <= i < fc.len() ==> begins_some(strs@, #[trigger] fc@[i]),
            forall|q: int|
                0 <= q < strs.len() && (#[trigger] strs@[q])@.len() > 0 ==> fc@.contains(strs@[q]@[0]),
    {
        let n = strs.len();
        let mut fc: Vec<char> = Vec::new();
        let mut k: usize = 0;
        while k < n
            invariant
                n == strs.len(),
                k <= n,
                all_ascii(strs@),
                forall|i: int, j: int| 0 <= i < j < fc.len() ==> fc[i] != fc[j],
                forall|i: int| 0 <= i < fc.len() ==> fc[i] <= '\u{7f}',
                forall|i: int| 0 <= i < fc.len() ==> begins_some(strs@, #[trigger] fc@[i]),
                forall|q: int| 0 <= q < k && (#[trigger] strs@[q])@.len() > 0 ==> fc@.contains(strs@[q]@[0]),
            decreases n - k,
        {
            let s: &str = strs[k];
            if !s.is_empty() {
                let c = s.get_char(0);
                assert(is_ascii(strs@[k as int]));
                assert(strs@[k as int]@.len() > 0 && strs@[k as int]@[0] == c);
                let ghost old_fc = fc@;
                let mut found = false;
                let mut j: usize = 0;
                while j < fc.len()
                    invariant
                        j <= fc.len(),
                        found ==> fc@.contains(c),
                        !found ==> forall|i: int| 0 <= i < j ==> fc[i] != c,
                    decreases fc.len() - j,
                {
                    if fc[j] == c {
                        found = true;
                    }
                    j = j + 1;
                }
                if !found {
                    fc.push(c);
                    assert(fc@[fc.len() - 1] == c);
                    assert forall|x: char| old_fc.contains(x) implies fc@.contains(x) by {
                        let i = choose|i: int| 0 <= i < old_fc.len() && old_fc[i] == x;
                        assert(fc@[i] == x);
                    }
                }
                assert(fc@.contains(c));
            }
            k = k + 1;
        }
        fc
    }

    /// The strings of `strs` that begin with `c`, with that character taken off.
    fn strip_first<'a>(strs: &Vec<&'a str>, c: char) -> (group: Vec<&'a str>)
        requires
            all_ascii(strs@),
        ensures
            all_ascii(group@),
            forall|w: Seq<char>| listed(group@, w) <==> continues(strs@, c, w),
            forall|m: int| 0 <= m < group.len() ==> (#[trigger] group@[m])@.len() + 1 <= longest(strs@),
    {
        let n = strs.len();
        let mut group: Vec<&'a str> = Vec::new();
        let mut k: usize = 0;
        proof {
            lemma_longest_bounds(strs@);
        }
        while k < n
            invariant
                n == strs.len(),
                k <= n,
                all_ascii(strs@),
                all_ascii(group@),
                forall|q: int| 0 <= q < n ==> (#[trigger] strs@[q])@.len() <= longest(strs@),
                forall|m: int| 0 <= m < group.len() ==> (#[trigger] group@[m])@.len() + 1 <= longest(strs@),
                forall|w: Seq<char>| listed(group@, w) ==> continues(strs@, c, w),
                forall|q: int|
                    0 <= q < k && (#[trigger] strs@[q])@.len() > 0 && strs@[q]@[0] == c ==> listed(
                        group@,
                        strs@[q]@.drop_first(),
                    ),
            decreases n - k,
        {
            let s: &'a str = strs[k];
            if !s.is_empty() && s.get_char(0) == c {
                assert(is_ascii(strs@[k as int]));
                let rest = s.substring_ascii(1, s.unicode_len());
                let ghost old_group = group@;
                group.push(rest);
                assert(rest@ =~= strs@[k as int]@.drop_first());
                assert(group@[group.len() - 1] == rest);
                assert forall|w: Seq<char>| listed(group@, w) implies continues(strs@, c, w) by {
                    let m = choose|m: int| 0 <= m < group@.len() && (#[trigger] group@[m])@ == w;
                    if m < old_group.len() {
                        assert(old_group[m] == group@[m]);
                        assert(listed(old_group, w));
                    } else {
                        assert(strs@[k as int]@.drop_first() == w);
                    }
                }
                assert forall|q: int|
                    0 <= q <= k && (#[trigger] strs@[q])@.len() > 0 && strs@[q]@[0] == c implies listed(
                    group@,
                    strs@[q]@.drop_first(),
                ) by {
                    if q < k {
                        let m = choose|m: int| 0 <= m < old_group.len() && (#[trigger] old_group[m])@ == strs@[q]@.drop_first();
                        assert(group@[m] == old_group[m]);
                    } else {
                        assert(group@[group.len() - 1]@ == strs@[q]@.drop_first());
                    }
                }
            }
            k = k + 1;
        }
        group
    }
}

} // verus!
