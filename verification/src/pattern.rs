//! Glob patterns: a string in which each `*` stands for any run of characters.
//!
//! A glob is compiled once into a list of segments, and a subject is then
//! matched by one scan from left to right. The scan is greedy: a floating
//! literal is bound to its leftmost occurrence and never moved again.

use vstd::prelude::*;
use crate::sequences::{lemma_filter_empty, lemma_filter_step};
use crate::text::{
    chars_of, ends_with, find, find_from, first_index_of, lemma_find_from_is_least,
    lemma_first_index_of_is_first, lemma_split_at,
    lemma_split_nonempty, lemma_split_rest, same_chars, split, split_on, starts_with, strs,
};

verus! {

/// One segment of a compiled glob, over characters.
pub enum Segment {
    /// The subject begins with the literal.
    Start(Seq<char>),
    /// The literal occurs in the subject at or after the cursor.
    Contains(Seq<char>),
    /// The subject ends with the literal.
    End(Seq<char>),
    /// The subject is the literal.
    Equal(Seq<char>),
}

impl Segment {
    /// The literal that the segment carries.
    pub open spec fn literal(self) -> Seq<char> {
        match self {
            Segment::Start(l) => l,
            Segment::Contains(l) => l,
            Segment::End(l) => l,
            Segment::Equal(l) => l,
        }
    }

    /// Every segment is kept but a floating one with nothing in it.
    pub open spec fn kept(self) -> bool {
        !(self is Contains && self.literal().len() == 0)
    }
}

/// One segment of a compiled glob.
#[derive(Debug, PartialEq)]
pub enum PT {
    /// The subject begins with the literal.
    Start(String),
    /// The literal occurs in the subject at or after the cursor.
    Contains(String),
    /// The subject ends with the literal.
    End(String),
    /// The subject is the literal.
    Equal(String),
}

impl View for PT {
    type V = Segment;

    open spec fn view(&self) -> Segment {
        match self {
            PT::Start(l) => Segment::Start(l@),
            PT::Contains(l) => Segment::Contains(l@),
            PT::End(l) => Segment::End(l@),
            PT::Equal(l) => Segment::Equal(l@),
        }
    }
}

impl Clone for PT {
    fn clone(&self) -> (r: Self)
        ensures
            r == *self,
    {
        match self {
            PT::Start(l) => PT::Start(l.clone()),
            PT::Contains(l) => PT::Contains(l.clone()),
            PT::End(l) => PT::End(l.clone()),
            PT::Equal(l) => PT::Equal(l.clone()),
        }
    }
}

/// Whether `s` begins with a wildcard.
pub open spec fn leading_star(s: Seq<char>) -> bool {
    s.len() > 0 && s[0] == '*'
}

/// Whether `s` ends with a wildcard.
pub open spec fn trailing_star(s: Seq<char>) -> bool {
    s.len() > 0 && s.last() == '*'
}

/// The pieces of `glob` around its wildcards, in order: one more than it has
/// wildcards, each free of wildcards, some perhaps empty.
pub open spec fn pieces(glob: Seq<char>) -> Seq<Seq<char>> {
    split(glob, '*')
}

/// The segment that piece `i` of `glob` becomes, by its position.
pub open spec fn tagged(glob: Seq<char>, i: int) -> Segment {
    let ps = pieces(glob);
    if i == 0 && !leading_star(glob) {
        Segment::Start(ps[i])
    } else if i == ps.len() - 1 && !trailing_star(glob) {
        Segment::End(ps[i])
    } else {
        Segment::Contains(ps[i])
    }
}

/// The first `n` pieces of `glob` as segments, the empty floating ones left out.
pub open spec fn compiled_prefix(glob: Seq<char>, n: int) -> Seq<Segment> {
    Seq::new(n as nat, |i: int| tagged(glob, i)).filter(|g: Segment| g.kept())
}

/// What a glob compiles to. Without a wildcard it is one `Equal` segment that
/// holds the whole glob. With wildcards each piece becomes a segment by its
/// position, and the empty floating segments are left out.
pub open spec fn compile(glob: Seq<char>) -> Seq<Segment> {
    if pieces(glob).len() == 1 {
        seq![Segment::Equal(glob)]
    } else {
        compiled_prefix(glob, pieces(glob).len() as int)
    }
}

/// Whether `subject` meets every segment of `rules`, the floating ones sought
/// from `cursor` on. A floating literal is bound to its leftmost occurrence at
/// or after the cursor, and the cursor then moves to the last character of
/// that occurrence. The other segments look at the whole subject.
pub open spec fn matches_from(rules: Seq<Segment>, subject: Seq<char>, cursor: int) -> bool
    decreases rules.len(),
{
    if rules.len() == 0 {
        true
    } else {
        let rest = rules.drop_first();
        match rules[0] {
            Segment::Start(l) => l.is_prefix_of(subject) && matches_from(rest, subject, cursor),
            Segment::End(l) => l.is_suffix_of(subject) && matches_from(rest, subject, cursor),
            Segment::Equal(l) => subject == l && matches_from(rest, subject, cursor),
            Segment::Contains(l) => match find_from(subject, l, cursor) {
                Some(i) => matches_from(rest, subject, i + l.len() - 1),
                None => false,
            },
        }
    }
}

/// Whether `subject` matches the compiled `rules`.
pub open spec fn glob_matches(rules: Seq<Segment>, subject: Seq<char>) -> bool {
    matches_from(rules, subject, 0)
}

/// One more piece taken in: it is added where it is kept, and left out where not.
proof fn lemma_compiled_prefix_step(glob: Seq<char>, n: int)
    requires
        0 <= n,
    ensures
        compiled_prefix(glob, n + 1) == if tagged(glob, n).kept() {
            compiled_prefix(glob, n).push(tagged(glob, n))
        } else {
            compiled_prefix(glob, n)
        },
{
    let all = Seq::new((n + 1) as nat, |i: int| tagged(glob, i));
    assert(all.drop_last() =~= Seq::new(n as nat, |i: int| tagged(glob, i)));
    lemma_filter_step(all, |g: Segment| g.kept());
}

/// Of no pieces there are no segments.
proof fn lemma_compiled_prefix_none(glob: Seq<char>)
    ensures
        compiled_prefix(glob, 0) == Seq::<Segment>::empty(),
{
    assert(Seq::new(0nat, |i: int| tagged(glob, i)) =~= Seq::<Segment>::empty());
    lemma_filter_empty(|g: Segment| g.kept());
}

/// A glob without a wildcard matches the one subject that is equal to it, and
/// no other: not the empty subject either, unless the glob is empty.
pub proof fn lemma_plain_glob_matches_itself_only(glob: Seq<char>, subject: Seq<char>)
    requires
        forall|j: int| 0 <= j < glob.len() ==> glob[j] != '*',
    ensures
        compile(glob) == seq![Segment::Equal(glob)],
        glob_matches(compile(glob), subject) <==> subject == glob,
{
    lemma_split_rest(glob, '*', 0);
    assert(glob.skip(0) =~= glob);
    reveal_with_fuel(matches_from, 2);
}

/// A wildcard followed by a literal that holds no wildcard matches the subjects
/// that end with the literal, and no others.
pub proof fn lemma_star_then_literal_tests_suffix(lit: Seq<char>, subject: Seq<char>)
    requires
        forall|j: int| 0 <= j < lit.len() ==> lit[j] != '*',
    ensures
        lit.len() > 0 ==> compile(seq!['*'] + lit) == seq![Segment::End(lit)],
        glob_matches(compile(seq!['*'] + lit), subject) <==> lit.is_suffix_of(subject),
{
    let glob = seq!['*'] + lit;
    lemma_split_at(glob, '*', 0, 0);
    lemma_split_rest(glob, '*', 1);
    assert(glob.skip(0) =~= glob);
    assert(glob.skip(1) =~= lit);
    assert(glob.subrange(0, 0) =~= Seq::<char>::empty());
    let ps = pieces(glob);
    assert(ps =~= seq![Seq::<char>::empty(), lit]);
    lemma_compiled_prefix_none(glob);
    lemma_compiled_prefix_step(glob, 0);
    lemma_compiled_prefix_step(glob, 1);
    reveal_with_fuel(matches_from, 2);
    if lit.len() > 0 {
        assert(glob.last() == lit.last());
        assert(compile(glob) =~= seq![Segment::End(lit)]);
    } else {
        assert(compile(glob) =~= Seq::<Segment>::empty());
        assert(lit.is_suffix_of(subject)) by {
            assert(lit =~= subject.subrange(subject.len() as int, subject.len() as int));
        }
    }
}

/// No floating segment of a compiled glob is empty.
pub proof fn lemma_compiled_segments_are_kept(glob: Seq<char>, i: int)
    requires
        0 <= i < compile(glob).len(),
    ensures
        compile(glob)[i].kept(),
{
    if pieces(glob).len() != 1 {
        let all = Seq::new(pieces(glob).len(), |i: int| tagged(glob, i));
        all.lemma_filter_pred(|g: Segment| g.kept(), i);
    }
}

/// The shape of the first `k` pieces of a glob with a wildcard, compiled.
proof fn lemma_prefix_shape(glob: Seq<char>, k: int)
    requires
        pieces(glob).len() >= 2,
        0 <= k <= pieces(glob).len(),
    ensures
        ({
            let p = compiled_prefix(glob, k);
            let n = pieces(glob).len();
            &&& forall|i: int| 0 <= i < p.len() ==> !(#[trigger] p[i] is Equal)
            &&& forall|i: int|
                0 <= i < p.len() && #[trigger] p[i] is Start ==> i == 0 && !leading_star(glob)
            &&& forall|i: int|
                0 <= i < p.len() && #[trigger] p[i] is End ==> k == n && i == p.len() - 1
                    && !trailing_star(glob)
            &&& k >= 1 && !leading_star(glob) ==> p.len() >= 1 && p[0] == Segment::Start(
                pieces(glob)[0],
            )
            &&& k == n && !trailing_star(glob) ==> p.len() >= 1 && p.last() == Segment::End(
                pieces(glob).last(),
            )
        }),
    decreases k,
{
    if k == 0 {
        lemma_compiled_prefix_none(glob);
    } else {
        lemma_prefix_shape(glob, k - 1);
        lemma_compiled_prefix_step(glob, k - 1);
    }
}

/// A glob holds a wildcard just where it falls into more than one piece.
pub proof fn lemma_wildcard_parts_the_glob(glob: Seq<char>)
    ensures
        pieces(glob).len() >= 2 <==> exists|j: int| 0 <= j < glob.len() && glob[j] == '*',
{
    lemma_first_index_of_is_first(glob, '*');
    let i = first_index_of(glob, '*');
    if 0 <= i < glob.len() {
        lemma_split_nonempty(glob.skip(i + 1), '*');
    }
}

/// The shape of what a glob with a wildcard compiles to. None of its segments
/// is an `Equal`. Where the glob does not begin with a wildcard the first
/// segment is a `Start` with the first piece, where it does not end with one
/// the last is an `End` with the last piece, and there are no other `Start`
/// and `End` segments: whatever lies between floats.
pub proof fn lemma_shape_of_compiled_glob(glob: Seq<char>)
    requires
        exists|j: int| 0 <= j < glob.len() && glob[j] == '*',
    ensures
        ({
            let c = compile(glob);
            &&& forall|i: int| 0 <= i < c.len() ==> !(#[trigger] c[i] is Equal)
            &&& forall|i: int| 0 <= i < c.len() && #[trigger] c[i] is Start ==> i == 0
            &&& forall|i: int| 0 <= i < c.len() && #[trigger] c[i] is End ==> i == c.len() - 1
            &&& if leading_star(glob) {
                forall|i: int| 0 <= i < c.len() ==> !(#[trigger] c[i] is Start)
            } else {
                c.len() >= 1 && c[0] == Segment::Start(pieces(glob)[0])
            }
            &&& if trailing_star(glob) {
                forall|i: int| 0 <= i < c.len() ==> !(#[trigger] c[i] is End)
            } else {
                c.len() >= 1 && c.last() == Segment::End(pieces(glob).last())
            }
        }),
{
    lemma_wildcard_parts_the_glob(glob);
    lemma_prefix_shape(glob, pieces(glob).len() as int);
}

/// The segments `rules` over characters, in order.
pub open spec fn segments(rules: Seq<PT>) -> Seq<Segment> {
    rules.map_values(|r: PT| r@)
}

/// A compiled glob.
pub struct Pattern {
    rules: Vec<PT>,
}

impl View for Pattern {
    type V = Seq<Segment>;

    closed spec fn view(&self) -> Seq<Segment> {
        segments(self.rules@)
    }
}

impl Pattern {
    /// No floating segment is empty.
    #[verifier::type_invariant]
    spec fn well_formed(self) -> bool {
        forall|i: int| 0 <= i < self.rules@.len() ==> (#[trigger] self.rules@[i]@).kept()
    }

    /// Compiles a glob. Every string is a glob, so this cannot fail.
    pub fn new(text: &str) -> (p: Pattern)
        ensures
            p@ == compile(text@),
    {
        let ghost glob = text@;
        let parts = split_on(text, '*');
        let n: usize = parts.len();
        let mut rules: Vec<PT> = Vec::new();
        proof {
            lemma_split_nonempty(glob, '*');
            assert(strs(parts@).len() == n);
        }
        if n == 1 {
            rules.push(PT::Equal(text.to_owned()));
            let p = Pattern { rules };
            assert(p@ =~= compile(glob));
            return p;
        }
        let chars = chars_of(text);
        let m: usize = chars.len();
        let leading: bool = m > 0 && chars[0] == '*';
        let trailing: bool = m > 0 && chars[m - 1] == '*';
        let mut k: usize = 0;
        proof {
            lemma_compiled_prefix_none(glob);
        }
        while k < n
            invariant
                glob == text@,
                strs(parts@) == pieces(glob),
                n == parts@.len(),
                k <= n,
                leading == leading_star(glob),
                trailing == trailing_star(glob),
                segments(rules@) == compiled_prefix(glob, k as int),
                forall|j: int| 0 <= j < rules@.len() ==> (#[trigger] rules@[j]@).kept(),
            decreases n - k,
        {
            let piece = parts[k].to_owned();
            proof {
                assert(strs(parts@)[k as int] == piece@);
                lemma_compiled_prefix_step(glob, k as int);
            }
            let ghost before = rules@;
            if k == 0 && !leading {
                rules.push(PT::Start(piece));
            } else if k == n - 1 && !trailing {
                rules.push(PT::End(piece));
            } else if !piece.as_str().is_empty() {
                rules.push(PT::Contains(piece));
            }
            assert(segments(rules@) =~= compiled_prefix(glob, k as int + 1));
            k += 1;
        }
        let p = Pattern { rules };
        assert(p@ =~= compile(glob));
        p
    }

    /// Whether `s` matches the pattern.
    pub fn matches(&self, s: &str) -> (r: bool)
        ensures
            r == glob_matches(self@, s@),
    {
        proof {
            use_type_invariant(self);
        }
        let subject = chars_of(s);
        let m: usize = subject.len();
        let n: usize = self.rules.len();
        let mut cursor: usize = 0;
        let mut k: usize = 0;
        assert(self@.skip(0) =~= self@);
        while k < n
            invariant
                n == self.rules@.len(),
                k <= n,
                subject@ == s@,
                m == subject@.len(),
                cursor <= m,
                forall|i: int| 0 <= i < self.rules@.len() ==> (#[trigger] self.rules@[i]@).kept(),
                glob_matches(self@, s@) == matches_from(self@.skip(k as int), s@, cursor as int),
            decreases n - k,
        {
            proof {
                assert(self@.skip(k as int)[0] == self.rules@[k as int]@);
                assert(self@.skip(k as int).drop_first() =~= self@.skip(k + 1));
            }
            match &self.rules[k] {
                PT::Start(l) => {
                    let lit = chars_of(l.as_str());
                    if !starts_with(&subject, &lit) {
                        return false;
                    }
                },
                PT::End(l) => {
                    let lit = chars_of(l.as_str());
                    if !ends_with(&subject, &lit) {
                        return false;
                    }
                },
                PT::Equal(l) => {
                    let lit = chars_of(l.as_str());
                    if !same_chars(&subject, &lit) {
                        return false;
                    }
                },
                PT::Contains(l) => {
                    let lit = chars_of(l.as_str());
                    match find(&subject, &lit, cursor) {
                        Some(i) => {
                            proof {
                                lemma_find_from_is_least(subject@, lit@, cursor as int);
                            }
                            cursor = i + lit.len() - 1;
                        },
                        None => {
                            return false;
                        },
                    }
                },
            }
            k += 1;
        }
        true
    }

    /// The segments of the pattern, in order.
    pub fn rules(&self) -> (r: Vec<PT>)
        ensures
            segments(r@) == self@,
    {
        self.copy_rules()
    }

    fn copy_rules(&self) -> (r: Vec<PT>)
        ensures
            r@ == self.rules@,
    {
        let mut r: Vec<PT> = Vec::new();
        let n: usize = self.rules.len();
        let mut k: usize = 0;
        while k < n
            invariant
                n == self.rules@.len(),
                k <= n,
                r@ == self.rules@.take(k as int),
            decreases n - k,
        {
            r.push(self.rules[k].clone());
            assert(r@ =~= self.rules@.take(k + 1));
            k += 1;
        }
        assert(r@ =~= self.rules@);
        r
    }
}

impl Clone for Pattern {
    fn clone(&self) -> (r: Self)
        ensures
            r@ == self@,
    {
        proof {
            use_type_invariant(self);
        }
        Pattern { rules: self.copy_rules() }
    }
}

} // verus!
