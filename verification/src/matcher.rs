//! File records, and the filter that keeps those which meet every constraint
//! that was set.

use vstd::prelude::*;
use crate::errors::Error;
use crate::pattern::{glob_matches, Pattern, Segment};
use crate::sequences::{lemma_filter_step, lemma_refilter};
use crate::text::{chars_of, last_index_of, lemma_last_index_of, rfind_char, slice_of};
use crate::walker::Walker;

verus! {

/// The bits of a mode word that are permission bits: the lower twelve.
pub const MODE_MASK: u32 = 0o7777;

/// The permission bits of a mode word.
pub fn mode_bits(mode: u32) -> (r: u32)
    ensures
        r == mode & MODE_MASK,
        r <= MODE_MASK,
{
    assert(mode & 0o7777 <= 0o7777) by (bit_vector);
    mode & MODE_MASK
}

/// What a file record holds.
pub struct FileView {
    /// The last component of the path.
    pub name: Seq<char>,
    pub path: Seq<char>,
    pub is_dir: bool,
    pub uid: u32,
    pub gid: u32,
    pub perms: u32,
}

/// The last component of `path`: what follows its last `/`, or all of it
/// where it holds none.
pub open spec fn base_name(path: Seq<char>) -> Seq<char> {
    path.skip(last_index_of(path, '/') + 1)
}

/// One entry of the file system, as it was when the tree was walked.
#[derive(Debug)]
pub struct File {
    name: String,
    /// Whether the entry is a directory.
    ftype: bool,
    uid: u32,
    gid: u32,
    perms: u32,
    pub path: String,
}

impl View for File {
    type V = FileView;

    closed spec fn view(&self) -> FileView {
        FileView {
            name: self.name@,
            path: self.path@,
            is_dir: self.ftype,
            uid: self.uid,
            gid: self.gid,
            perms: self.perms,
        }
    }
}

/// The records of `files`, in order.
pub open spec fn views(files: Seq<File>) -> Seq<FileView> {
    files.map_values(|f: File| f@)
}

impl File {
    /// The record of the entry at `path`; `ftype` says whether it is a directory.
    pub fn new(path: String, ftype: bool, uid: u32, gid: u32, perms: u32) -> (f: Self)
        ensures
            f@ == (FileView {
                name: base_name(path@),
                path: path@,
                is_dir: ftype,
                uid,
                gid,
                perms,
            }),
    {
        let chars = chars_of(path.as_str());
        let n: usize = chars.len();
        proof {
            lemma_last_index_of(path@, '/');
        }
        let from: usize = match rfind_char(&chars, '/') {
            Some(i) => i + 1,
            None => 0,
        };
        let name = slice_of(path.as_str(), from, n);
        Self { name, ftype, uid, gid, path, perms }
    }

    /// The last component of the path.
    pub fn name(&self) -> (r: &String)
        ensures
            r@ == self@.name,
    {
        &self.name
    }

    /// The full path.
    pub fn path(&self) -> (r: &String)
        ensures
            r@ == self@.path,
    {
        &self.path
    }

    /// Whether the entry is a directory.
    pub fn is_dir(&self) -> (r: bool)
        ensures
            r == self@.is_dir,
    {
        self.ftype
    }

    /// The id of the owning user.
    pub fn uid(&self) -> (r: u32)
        ensures
            r == self@.uid,
    {
        self.uid
    }

    /// The id of the owning group.
    pub fn gid(&self) -> (r: u32)
        ensures
            r == self@.gid,
    {
        self.gid
    }

    /// The permission bits.
    pub fn perms(&self) -> (r: u32)
        ensures
            r == self@.perms,
    {
        self.perms
    }
}

impl Clone for File {
    fn clone(&self) -> (r: Self)
        ensures
            r == *self,
    {
        Self {
            name: self.name.clone(),
            ftype: self.ftype,
            uid: self.uid,
            gid: self.gid,
            perms: self.perms,
            path: self.path.clone(),
        }
    }
}

/// The compiled forms of `patterns`, in order.
pub open spec fn pattern_views(patterns: Seq<Pattern>) -> Seq<Seq<Segment>> {
    patterns.map_values(|p: Pattern| p@)
}

/// Whether `subject` matches every one of `patterns`.
pub open spec fn all_match(patterns: Seq<Seq<Segment>>, subject: Seq<char>) -> bool {
    forall|i: int| 0 <= i < patterns.len() ==> glob_matches(#[trigger] patterns[i], subject)
}

/// Whether an entry passes the type constraint: `f` lets no directory
/// through, `d` nothing but directories, and any other value everything.
pub open spec fn type_passes(ftype: Option<char>, is_dir: bool) -> bool {
    match ftype {
        Some(c) => if c == 'f' {
            !is_dir
        } else if c == 'd' {
            is_dir
        } else {
            true
        },
        None => true,
    }
}

/// Whether `have` is the value asked for, where one was asked for.
pub open spec fn value_passes(want: Option<u32>, have: u32) -> bool {
    match want {
        Some(w) => w == have,
        None => true,
    }
}

/// What a matcher holds: the records, and the constraints that were set.
pub struct MatcherView {
    pub files: Seq<FileView>,
    pub npatterns: Seq<Seq<Segment>>,
    pub ppatterns: Seq<Seq<Segment>>,
    pub gid: Option<u32>,
    pub uid: Option<u32>,
    pub perms: Option<u32>,
    pub ftype: Option<char>,
}

impl MatcherView {
    /// Whether `f` meets every constraint that was set. One that was not set
    /// is met by every record.
    pub open spec fn passes(self, f: FileView) -> bool {
        &&& all_match(self.npatterns, f.name)
        &&& all_match(self.ppatterns, f.path)
        &&& type_passes(self.ftype, f.is_dir)
        &&& value_passes(self.gid, f.gid)
        &&& value_passes(self.uid, f.uid)
        &&& value_passes(self.perms, f.perms)
    }

    /// The records that pass, in the order in which the matcher holds them.
    pub open spec fn selected(self) -> Seq<FileView> {
        self.files.filter(|f: FileView| self.passes(f))
    }

    /// The same constraints over other records.
    pub open spec fn over(self, files: Seq<FileView>) -> MatcherView {
        MatcherView { files, ..self }
    }

    /// The records `files` with no constraint set.
    pub open spec fn unconstrained(files: Seq<FileView>) -> MatcherView {
        MatcherView {
            files,
            npatterns: Seq::empty(),
            ppatterns: Seq::empty(),
            gid: None,
            uid: None,
            perms: None,
            ftype: None,
        }
    }
}

/// Every record that the filter lets through meets every constraint that was set.
pub proof fn lemma_selected_records_pass(m: MatcherView)
    ensures
        forall|i: int| 0 <= i < m.selected().len() ==> m.passes(#[trigger] m.selected()[i]),
{
    let pass = |f: FileView| m.passes(f);
    assert forall|i: int| 0 <= i < m.selected().len() implies m.passes(
        #[trigger] m.selected()[i],
    ) by {
        m.files.lemma_filter_pred(pass, i);
    }
}

/// Filtering what was filtered, by the same constraints, gives it back unchanged.
pub proof fn lemma_filtering_twice_changes_nothing(m: MatcherView)
    ensures
        m.over(m.selected()).selected() == m.selected(),
{
    let again = m.over(m.selected());
    let p = |f: FileView| m.passes(f);
    let q = |f: FileView| again.passes(f);
    lemma_refilter(m.files, p, q);
}

/// With the type constraint `f` no directory is let through, and with `d`
/// nothing but directories.
pub proof fn lemma_type_constraint_holds(m: MatcherView)
    ensures
        m.ftype == Some('f') ==> forall|i: int|
            0 <= i < m.selected().len() ==> !(#[trigger] m.selected()[i]).is_dir,
        m.ftype == Some('d') ==> forall|i: int|
            0 <= i < m.selected().len() ==> (#[trigger] m.selected()[i]).is_dir,
{
    lemma_selected_records_pass(m);
}

/// Patterns given together are joined by "and": a record is let through only
/// where its base name matches every name pattern and its path every path
/// pattern, and one pattern that fails keeps it out.
pub proof fn lemma_patterns_are_conjoined(m: MatcherView, f: FileView)
    ensures
        m.passes(f) ==> forall|j: int|
            0 <= j < m.npatterns.len() ==> glob_matches(#[trigger] m.npatterns[j], f.name),
        m.passes(f) ==> forall|j: int|
            0 <= j < m.ppatterns.len() ==> glob_matches(#[trigger] m.ppatterns[j], f.path),
        (exists|j: int| 0 <= j < m.npatterns.len() && !glob_matches(m.npatterns[j], f.name))
            ==> !m.passes(f),
        (exists|j: int| 0 <= j < m.ppatterns.len() && !glob_matches(m.ppatterns[j], f.path))
            ==> !m.passes(f),
{
}

/// The records of a walk, and the constraints to filter them by.
pub struct FileMatcher {
    files: Vec<File>,
    npatterns: Vec<Pattern>,
    ppatterns: Vec<Pattern>,
    gid: Option<u32>,
    uid: Option<u32>,
    perms: Option<u32>,
    ftype: Option<char>,
}

impl View for FileMatcher {
    type V = MatcherView;

    closed spec fn view(&self) -> MatcherView {
        MatcherView {
            files: views(self.files@),
            npatterns: pattern_views(self.npatterns@),
            ppatterns: pattern_views(self.ppatterns@),
            gid: self.gid,
            uid: self.uid,
            perms: self.perms,
            ftype: self.ftype,
        }
    }
}

/// Whether `subject` matches every one of `patterns`.
fn matches_all(patterns: &Vec<Pattern>, subject: &str) -> (r: bool)
    ensures
        r == all_match(pattern_views(patterns@), subject@),
{
    let n: usize = patterns.len();
    let mut k: usize = 0;
    while k < n
        invariant
            n == patterns@.len(),
            k <= n,
            forall|i: int|
                0 <= i < k ==> glob_matches(#[trigger] pattern_views(patterns@)[i], subject@),
        decreases n - k,
    {
        if !patterns[k].matches(subject) {
            assert(!glob_matches(pattern_views(patterns@)[k as int], subject@));
            return false;
        }
        k += 1;
    }
    true
}

/// Adds copies of `patterns` at the end of `into`.
fn add_patterns(into: &mut Vec<Pattern>, patterns: &[Pattern])
    ensures
        pattern_views(final(into)@) == pattern_views(old(into)@) + pattern_views(patterns@),
{
    let n: usize = patterns.len();
    let mut k: usize = 0;
    assert(pattern_views(patterns@.take(0)) =~= Seq::<Seq<Segment>>::empty());
    while k < n
        invariant
            n == patterns@.len(),
            k <= n,
            pattern_views(into@) == pattern_views(old(into)@) + pattern_views(
                patterns@.take(k as int),
            ),
        decreases n - k,
    {
        let ghost before = into@;
        into.push(patterns[k].clone());
        assert(pattern_views(into@) =~= pattern_views(before).push(patterns@[k as int]@));
        assert(pattern_views(patterns@.take(k + 1)) =~= pattern_views(
            patterns@.take(k as int),
        ).push(patterns@[k as int]@));
        k += 1;
    }
    assert(patterns@.take(n as int) =~= patterns@);
}

impl FileMatcher {
    /// A matcher over the records of a walk that is over, with no constraint
    /// set; or the error that ended the walk.
    pub fn from_dir(walk: Walker) -> (r: Result<Self, Error>)
        requires
            walk@.done(),
        ensures
            match r {
                Ok(m) => walk@.failure is None && m@ == MatcherView::unconstrained(walk@.out),
                Err(e) => walk@.failure == Some(e@),
            },
    {
        match walk.finish() {
            Ok(files) => {
                let m = Self {
                    files,
                    npatterns: Vec::new(),
                    ppatterns: Vec::new(),
                    gid: None,
                    uid: None,
                    perms: None,
                    ftype: None,
                };
                assert(m@.npatterns =~= Seq::<Seq<Segment>>::empty());
                assert(m@.ppatterns =~= Seq::<Seq<Segment>>::empty());
                Ok(m)
            },
            Err(e) => Err(e),
        }
    }

    /// Sets the type constraint, or lifts it.
    pub fn set_ftype(&mut self, ftype: Option<char>)
        ensures
            final(self)@ == (MatcherView { ftype, ..old(self)@ }),
    {
        self.ftype = ftype;
    }

    /// Adds patterns that the base name must match, every one of them.
    pub fn add_npatterns(&mut self, patterns: &[Pattern])
        ensures
            final(self)@ == (MatcherView {
                npatterns: old(self)@.npatterns + pattern_views(patterns@),
                ..old(self)@
            }),
    {
        add_patterns(&mut self.npatterns, patterns);
    }

    /// Adds patterns that the full path must match, every one of them.
    pub fn add_ppatterns(&mut self, patterns: &[Pattern])
        ensures
            final(self)@ == (MatcherView {
                ppatterns: old(self)@.ppatterns + pattern_views(patterns@),
                ..old(self)@
            }),
    {
        add_patterns(&mut self.ppatterns, patterns);
    }

    /// Sets the group that a record must belong to, or lifts the constraint.
    pub fn set_gid(&mut self, id: Option<u32>)
        ensures
            final(self)@ == (MatcherView { gid: id, ..old(self)@ }),
    {
        self.gid = id;
    }

    /// Sets the user that a record must belong to, or lifts the constraint.
    pub fn set_uid(&mut self, id: Option<u32>)
        ensures
            final(self)@ == (MatcherView { uid: id, ..old(self)@ }),
    {
        self.uid = id;
    }

    /// Sets the permission bits that a record must have, or lifts the constraint.
    pub fn set_perms(&mut self, perms: Option<u32>)
        ensures
            final(self)@ == (MatcherView { perms, ..old(self)@ }),
    {
        self.perms = perms;
    }

    /// Whether `f` meets every constraint that was set.
    pub fn passes(&self, f: &File) -> (r: bool)
        ensures
            r == self@.passes(f@),
    {
        let name = matches_all(&self.npatterns, f.name.as_str());
        let path = matches_all(&self.ppatterns, f.path.as_str());
        let gid = match self.gid {
            Some(i) => i == f.gid,
            None => true,
        };
        let uid = match self.uid {
            Some(i) => i == f.uid,
            None => true,
        };
        let mode = match self.perms {
            Some(m) => m == f.perms,
            None => true,
        };
        let ftype = match self.ftype {
            Some(c) => if c == 'f' && f.ftype {
                false
            } else if c == 'd' && !f.ftype {
                false
            } else {
                true
            },
            None => true,
        };
        name && path && ftype && gid && uid && mode
    }

    /// The records that meet every constraint, in the order of the walk.
    pub fn matches(&self) -> (r: Vec<File>)
        ensures
            views(r@) == self@.selected(),
    {
        let mut r: Vec<File> = Vec::new();
        let n: usize = self.files.len();
        let mut k: usize = 0;
        let ghost pass = |f: FileView| self@.passes(f);
        assert(views(self.files@.take(0)) =~= Seq::<FileView>::empty());
        while k < n
            invariant
                n == self.files@.len(),
                k <= n,
                pass == |f: FileView| self@.passes(f),
                views(r@) == views(self.files@.take(k as int)).filter(pass),
            decreases n - k,
        {
            let f = &self.files[k];
            let ghost before = views(self.files@.take(k as int));
            let ghost after = views(self.files@.take(k + 1));
            assert(after.drop_last() =~= before);
            assert(after.last() == f@);
            proof {
                lemma_filter_step(after, pass);
            }
            let ghost old_r = r@;
            if self.passes(f) {
                r.push(f.clone());
                assert(views(r@) =~= views(old_r).push(f@));
            }
            k += 1;
        }
        assert(self.files@.take(n as int) =~= self.files@);
        r
    }
}

} // verus!
