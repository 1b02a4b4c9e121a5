//! What extraction does with each entry of an archive: descend into nested
//! archives, copy out the entries that a matcher accepts (save those on the
//! deny-list), and where each copy goes; and how the matchers widen when a
//! pass finds nothing.

use crate::mapping::{patterns_view, MappingView, ShapefileMetadata};
use crate::output::{
    is_word, joined, join_path, last_index_of, last_index_of_exec, last_segment, set_extension,
    with_extension,
};
use crate::template::{
    any_matches, any_sidecar_view, ci, ending_with_view, matches_any, NamePattern, NamePatternView,
};
use crate::text::{chars_of, replace_all, replaced, starts_at, starts_at_exec, string_of};
use vstd::prelude::*;

verus! {

/// What to do with one entry of an archive.
#[derive(PartialEq, Eq, Structural, Clone, Copy, Debug)]
pub enum EntryAction {
    /// A nested archive: copy it out and extract from it in turn.
    Recurse,
    /// A matching file: copy it out.
    Extract,
    /// Leave it in the archive.
    Skip,
}

/// An entry name with `\` separators written as `/`.
pub open spec fn normalized_entry(name: Seq<char>) -> Seq<char> {
    replaced(name, "\\"@, "/"@)
}

pub open spec fn is_archive_name(n: Seq<char>) -> bool {
    n.len() >= 4 && n.subrange(n.len() - 4, n.len() as int) == ".zip"@
}

/// Entries under a directory that is known to hold mis-encoded duplicates
/// of files found elsewhere in the same archive.
pub open spec fn is_denied(n: Seq<char>) -> bool {
    starts_at(n, 0, "N08-21_GML/utf8/"@)
}

/// What to do with an entry: nothing under a deny-listed directory (nested
/// archives included); descend into a nested archive; copy out a file that
/// a matcher accepts.
pub open spec fn entry_action_of(n: Seq<char>, ps: Seq<NamePatternView>) -> EntryAction {
    if is_denied(n) {
        EntryAction::Skip
    } else if is_archive_name(n) {
        EntryAction::Recurse
    } else if any_matches(ps, n) {
        EntryAction::Extract
    } else {
        EntryAction::Skip
    }
}

/// Whether an entry (already normalized) is a nested archive.
pub fn is_archive_entry(name: &str) -> (r: bool)
    ensures
        r == is_archive_name(name@),
{
    let v = chars_of(name);
    let zip = chars_of(".zip");
    proof {
        reveal_strlit(".zip");
    }
    let r = v.len() >= 4 && starts_at_exec(&v, v.len() - 4, &zip);
    proof {
        if v.len() >= 4 {
            assert(starts_at(v@, v.len() - 4, ".zip"@) == (v@.subrange(v.len() - 4, v.len() as int)
                == ".zip"@));
        }
    }
    r
}

/// Writes the separators of an entry name as `/`.
pub fn normalize_entry_name(name: &str) -> (r: String)
    ensures
        r@ == normalized_entry(name@),
{
    let bs = chars_of("\\");
    let slash = chars_of("/");
    proof {
        reveal_strlit("\\");
    }
    string_of(&replace_all(&chars_of(name), &bs, &slash))
}

/// Decides what to do with the entry `name` (already normalized).
/// Whether an entry (already normalized) lies under a deny-listed directory.
pub fn is_denied_entry(name: &str) -> (r: bool)
    ensures
        r == is_denied(name@),
{
    let v = chars_of(name);
    let deny = chars_of("N08-21_GML/utf8/");
    starts_at_exec(&v, 0, &deny)
}

/// Decides what to do with the entry `name` (already normalized).
pub fn entry_action(name: &str, matchers: &Vec<NamePattern>) -> (r: EntryAction)
    ensures
        r == entry_action_of(name@, patterns_view(matchers@)),
{
    if is_denied_entry(name) {
        return EntryAction::Skip;
    }
    if is_archive_entry(name) {
        return EntryAction::Recurse;
    }
    proof {
        assert(matchers@.map_values(|p: NamePattern| p@) =~= patterns_view(matchers@));
    }
    if matches_any(matchers, name) {
        EntryAction::Extract
    } else {
        EntryAction::Skip
    }
}

/// The directory that the entries of an archive are copied to: the
/// archive's file name without extension, under `outdir`.
pub open spec fn archive_dir_of(outdir: Seq<char>, archive_path: Seq<char>) -> Seq<char> {
    with_extension(joined(outdir, last_segment(archive_path)), Seq::empty())
}

pub fn archive_dir(outdir: &str, archive_path: &str) -> (r: String)
    ensures
        r@ == archive_dir_of(outdir@, archive_path@),
{
    let v = chars_of(archive_path);
    let start = match last_index_of_exec(&v, '/') {
        Some(i) => i + 1,
        None => 0,
    };
    let mut seg: Vec<char> = Vec::new();
    let mut k = start;
    while k < v.len()
        invariant
            start <= k <= v.len(),
            seg@ == v@.subrange(start as int, k as int),
        decreases v.len() - k,
    {
        seg.push(v[k]);
        proof {
            assert(seg@ =~= v@.subrange(start as int, k + 1));
        }
        k = k + 1;
    }
    proof {
        if start == 0 {
            assert(v@.subrange(0, v.len() as int) =~= v@);
        }
        reveal_strlit("");
        assert(""@ =~= Seq::<char>::empty());
    }
    let name = string_of(&seg);
    let p = join_path(outdir, name.as_str());
    set_extension(p.as_str(), "")
}

/// Where an entry of an archive is copied to.
pub fn entry_destination(archive_dir: &str, entry_name: &str) -> (r: String)
    ensures
        r@ == joined(archive_dir@, entry_name@),
{
    join_path(archive_dir, entry_name)
}

/// The path names a file with the extension `shp`, in either ASCII case
/// (the matchers accept sidecars in either case too).
pub open spec fn is_shp_path(p: Seq<char>) -> bool {
    let seg = match last_index_of(p, '/') {
        Some(i) => i + 1,
        None => 0,
    };
    match last_index_of(p, '.') {
        Some(d) => d > seg && p.len() - d == 4 && ci(p[d + 1], 's', 'S') && ci(p[d + 2], 'h', 'H')
            && ci(p[d + 3], 'p', 'P'),
        None => false,
    }
}

pub fn is_shp(path: &str) -> (r: bool)
    ensures
        r == is_shp_path(path@),
{
    let v = chars_of(path);
    let seg = match last_index_of_exec(&v, '/') {
        Some(i) => i + 1,
        None => 0,
    };
    match last_index_of_exec(&v, '.') {
        Some(d) => d > seg && v.len() - d == 4 && (v[d + 1] == 's' || v[d + 1] == 'S') && (v[d + 2]
            == 'h' || v[d + 2] == 'H') && (v[d + 3] == 'p' || v[d + 3] == 'P'),
        None => false,
    }
}

/// The `.shp` files among the extracted paths, in order: the conversion
/// step reads them, and finds their sidecars beside them.
pub fn shapefile_paths(paths: &Vec<String>) -> (r: Vec<String>)
    ensures
        crate::mapping::strings_view(r@) == crate::mapping::strings_view(paths@).filter(
            shp_pred(),
        ),
{
    let ghost sv = crate::mapping::strings_view(paths@);
    let mut out: Vec<String> = Vec::new();
    let mut i: usize = 0;
    while i < paths.len()
        invariant
            sv == crate::mapping::strings_view(paths@),
            i <= paths.len(),
            crate::mapping::strings_view(out@) == sv.subrange(0, i as int).filter(shp_pred()),
        decreases paths.len() - i,
    {
        proof {
            reveal(Seq::filter);
            let s1 = sv.subrange(0, i + 1);
            assert(s1.drop_last() =~= sv.subrange(0, i as int));
            assert(s1.last() == sv[i as int]);
            assert(shp_pred()(sv[i as int]) == is_shp_path(sv[i as int]));
        }
        if is_shp(paths[i].as_str()) {
            let ghost prior = crate::mapping::strings_view(out@);
            out.push(paths[i].clone());
            proof {
                assert(crate::mapping::strings_view(out@) =~= prior.push(sv[i as int]));
            }
        }
        i = i + 1;
    }
    proof {
        assert(sv.subrange(0, i as int) =~= sv);
    }
    out
}

pub open spec fn shp_pred() -> spec_fn(Seq<char>) -> bool {
    |p: Seq<char>| is_shp_path(p)
}

/// How wide the matchers of an extraction pass are.
#[derive(PartialEq, Eq, Structural, Clone, Copy, Debug)]
pub enum MatcherStage {
    /// The output's own matchers.
    Precise,
    /// A pattern for a dataset whose files do not follow its templates.
    Widened,
    /// Any Shapefile.
    CatchAll,
}

/// The dataset whose shipped polygon files do not follow its declared
/// template (A33) has a widened pattern of its own.
pub open spec fn has_widened(identifier: Seq<char>) -> bool {
    identifier == "A33"@
}

/// The pass after one that extracted `found` files for the output
/// `identifier`: none when it found any; after the output's own matchers,
/// the widened pattern when the dataset has one, else the catch-all; after
/// the widened pattern, the catch-all; nothing after the catch-all.
pub open spec fn next_stage_of(stage: MatcherStage, identifier: Seq<char>, found: nat) -> Option<
    MatcherStage,
> {
    if found > 0 {
        None
    } else {
        match stage {
            MatcherStage::Precise => if has_widened(identifier) {
                Some(MatcherStage::Widened)
            } else {
                Some(MatcherStage::CatchAll)
            },
            MatcherStage::Widened => Some(MatcherStage::CatchAll),
            MatcherStage::CatchAll => None,
        }
    }
}

/// The widened pattern: names ending in `Polygon` or `Plygon`.
pub open spec fn widened_view() -> Seq<NamePatternView> {
    seq![ending_with_view("Polygon"@), ending_with_view("Plygon"@)]
}

pub open spec fn stage_view(stage: MatcherStage, m: MappingView) -> Seq<NamePatternView> {
    match stage {
        MatcherStage::Precise => m.matchers,
        MatcherStage::Widened => widened_view(),
        MatcherStage::CatchAll => Seq::new(1, |i: int| any_sidecar_view()),
    }
}

/// The first pass always uses the output's own matchers.
pub fn first_stage() -> (r: MatcherStage)
    ensures
        r == MatcherStage::Precise,
{
    MatcherStage::Precise
}

pub fn next_stage(stage: MatcherStage, identifier: &str, found: usize) -> (r: Option<MatcherStage>)
    ensures
        r == next_stage_of(stage, identifier@, found as nat),
{
    if found > 0 {
        None
    } else {
        match stage {
            MatcherStage::Precise => if is_word(identifier, "A33") {
                Some(MatcherStage::Widened)
            } else {
                Some(MatcherStage::CatchAll)
            },
            MatcherStage::Widened => Some(MatcherStage::CatchAll),
            MatcherStage::CatchAll => None,
        }
    }
}

/// The matchers of a pass for the output `m`.
pub fn stage_matchers(stage: MatcherStage, m: &ShapefileMetadata) -> (r: Vec<NamePattern>)
    ensures
        patterns_view(r@) == stage_view(stage, m@),
{
    let mut out: Vec<NamePattern> = Vec::new();
    match stage {
        MatcherStage::Precise => {
            let mut i: usize = 0;
            while i < m.shapefile_name_regex.len()
                invariant
                    i <= m.shapefile_name_regex.len(),
                    patterns_view(out@) == patterns_view(m.shapefile_name_regex@).subrange(
                        0,
                        i as int,
                    ),
                decreases m.shapefile_name_regex.len() - i,
            {
                let ghost prior = patterns_view(out@);
                let p = m.shapefile_name_regex[i].duplicate();
                out.push(p);
                proof {
                    assert(patterns_view(out@) =~= prior.push(p@));
                    assert(patterns_view(out@) =~= patterns_view(m.shapefile_name_regex@).subrange(
                        0,
                        i + 1,
                    ));
                }
                i = i + 1;
            }
            proof {
                assert(patterns_view(m.shapefile_name_regex@).subrange(0, i as int)
                    =~= patterns_view(m.shapefile_name_regex@));
            }
        },
        MatcherStage::Widened => {
            let a = NamePattern::ending_with("Polygon");
            let b = NamePattern::ending_with("Plygon");
            out.push(a);
            out.push(b);
            proof {
                assert(patterns_view(out@) =~= widened_view());
            }
        },
        MatcherStage::CatchAll => {
            out.push(NamePattern::any_sidecar());
            proof {
                assert(patterns_view(out@) =~= Seq::new(1, |i: int| any_sidecar_view()));
            }
        },
    }
    out
}

/// The entries of an archive, nested archives listed with their own
/// entries.
#[derive(Debug)]
pub struct ArchiveListing {
    pub entries: Vec<ArchiveEntry>,
}

#[derive(Debug)]
pub enum ArchiveEntry {
    /// An entry, by its name in the archive.
    File(String),
    /// A nested archive: its name, and its own listing.
    Nested(String, ArchiveListing),
}

/// One copy that extraction makes: the entry at `index` of the archive file
/// `archive`, written to `dest`.
#[derive(Clone, Debug)]
pub struct PlannedCopy {
    pub archive: String,
    pub index: usize,
    pub dest: String,
}

/// The copies of the matching files among the entries from `i` on of the
/// listing `l` of the archive file `archive`, whose entries go under `dir`;
/// a nested archive is read from where it was copied to, and its entries go
/// under a directory named after it.
pub open spec fn copies_from(
    l: ArchiveListing,
    i: int,
    ps: Seq<NamePatternView>,
    dir: Seq<char>,
    archive: Seq<char>,
) -> Seq<(Seq<char>, int, Seq<char>)>
    decreases l, l.entries.len() - i,
{
    if i < 0 || i >= l.entries.len() {
        Seq::empty()
    } else {
        let rest = copies_from(l, i + 1, ps, dir, archive);
        match l.entries@[i] {
            ArchiveEntry::File(name) => {
                let n = normalized_entry(name@);
                if entry_action_of(n, ps) == EntryAction::Extract {
                    seq![(archive, i, joined(dir, n))] + rest
                } else {
                    rest
                }
            },
            ArchiveEntry::Nested(name, sub) => {
                let n = normalized_entry(name@);
                let copied = joined(dir, n);
                if is_denied(n) {
                    rest
                } else {
                    copies_from(sub, 0, ps, archive_dir_of(dir, copied), copied) + rest
                }
            },
        }
    }
}

pub open spec fn copy_view(c: PlannedCopy) -> (Seq<char>, int, Seq<char>) {
    (c.archive@, c.index as int, c.dest@)
}

/// Plans the copies of the entries of `l`, the listing of the archive file
/// `archive`, whose entries go under `dir`.
pub fn plan_copies(l: &ArchiveListing, matchers: &Vec<NamePattern>, dir: &str, archive: &str) -> (r:
    Vec<PlannedCopy>)
    ensures
        r@.map_values(|c: PlannedCopy| copy_view(c)) == copies_from(
            *l,
            0,
            patterns_view(matchers@),
            dir@,
            archive@,
        ),
    decreases l,
{
    let mut out: Vec<PlannedCopy> = Vec::new();
    let mut i: usize = l.entries.len();
    let ghost ps = patterns_view(matchers@);
    while i > 0
        invariant
            i <= l.entries.len(),
            ps == patterns_view(matchers@),
            out@.map_values(|c: PlannedCopy| copy_view(c)) == copies_from(
                *l,
                i as int,
                ps,
                dir@,
                archive@,
            ),
        decreases i,
    {
        i = i - 1;
        let ghost rest = out@.map_values(|c: PlannedCopy| copy_view(c));
        match &l.entries[i] {
            ArchiveEntry::File(name) => {
                let n = normalize_entry_name(name.as_str());
                if entry_action(n.as_str(), matchers) == EntryAction::Extract {
                    let c = PlannedCopy {
                        archive: String::from_str(archive),
                        index: i,
                        dest: join_path(dir, n.as_str()),
                    };
                    let mut front: Vec<PlannedCopy> = Vec::new();
                    front.push(c);
                    front.append(&mut out);
                    out = front;
                    proof {
                        assert(out@.map_values(|c: PlannedCopy| copy_view(c)) =~= seq![
                            (archive@, i as int, joined(dir@, n@)),
                        ] + rest);
                    }
                }
            },
            ArchiveEntry::Nested(name, sub) => {
                proof {
                    assert(decreases_to!(*l => l.entries));
                    assert(decreases_to!(l.entries => l.entries[i as int]));
                }
                let n = normalize_entry_name(name.as_str());
                if is_denied_entry(n.as_str()) {
                    continue;
                }
                let copied = join_path(dir, n.as_str());
                let subdir = archive_dir(dir, copied.as_str());
                let mut inner = plan_copies(sub, matchers, subdir.as_str(), copied.as_str());
                let ghost iv = inner@.map_values(|c: PlannedCopy| copy_view(c));
                inner.append(&mut out);
                out = inner;
                proof {
                    assert(out@.map_values(|c: PlannedCopy| copy_view(c)) =~= iv + rest);
                }
            },
        }
    }
    out
}

/// The file entry reached by following `path` (one entry index for each
/// level of nesting, never through a deny-listed nested archive) through the
/// listing `l` of the archive file `archive` whose entries go under `dir`:
/// its normalized name, the directory its copy goes under, the archive file
/// it is read from, and its index there.
pub open spec fn file_at(
    l: ArchiveListing,
    path: Seq<int>,
    dir: Seq<char>,
    archive: Seq<char>,
) -> Option<(Seq<char>, Seq<char>, Seq<char>, int)>
    decreases path.len(),
{
    if path.len() == 0 || path[0] < 0 || path[0] >= l.entries.len() {
        None
    } else {
        match l.entries@[path[0]] {
            ArchiveEntry::File(name) => if path.len() == 1 {
                Some((normalized_entry(name@), dir, archive, path[0]))
            } else {
                None
            },
            ArchiveEntry::Nested(name, sub) => {
                let copied = joined(dir, normalized_entry(name@));
                if is_denied(normalized_entry(name@)) {
                    None
                } else {
                    file_at(sub, path.drop_first(), archive_dir_of(dir, copied), copied)
                }
            },
        }
    }
}

proof fn lemma_concat_contains<A>(x: Seq<A>, y: Seq<A>, e: A)
    ensures
        x.contains(e) ==> (x + y).contains(e),
        y.contains(e) ==> (x + y).contains(e),
{
    if x.contains(e) {
        let k = choose|k: int| 0 <= k < x.len() && x[k] == e;
        assert((x + y)[k] == e);
    }
    if y.contains(e) {
        let k = choose|k: int| 0 <= k < y.len() && y[k] == e;
        assert((x + y)[x.len() + k] == e);
    }
}

proof fn lemma_copies_suffix(
    l: ArchiveListing,
    j: int,
    i: int,
    ps: Seq<NamePatternView>,
    dir: Seq<char>,
    archive: Seq<char>,
    e: (Seq<char>, int, Seq<char>),
)
    requires
        0 <= j <= i,
        copies_from(l, i, ps, dir, archive).contains(e),
    ensures
        copies_from(l, j, ps, dir, archive).contains(e),
    decreases i - j,
{
    if j < i {
        lemma_copies_suffix(l, j + 1, i, ps, dir, archive, e);
        let rest = copies_from(l, j + 1, ps, dir, archive);
        if j < l.entries.len() {
            match l.entries@[j] {
                ArchiveEntry::File(name) => {
                    let n = normalized_entry(name@);
                    lemma_concat_contains(seq![(archive, j, joined(dir, n))], rest, e);
                },
                ArchiveEntry::Nested(name, sub) => {
                    let copied = joined(dir, normalized_entry(name@));
                    if !is_denied(normalized_entry(name@)) {
                        lemma_concat_contains(
                            copies_from(sub, 0, ps, archive_dir_of(dir, copied), copied),
                            rest,
                            e,
                        );
                    }
                },
            }
        }
    }
}

/// Extraction reaches every file at every depth of nesting: each entry
/// that the matchers accept, however deep among nested archives it lies, is
/// planned to be copied from its archive to its place.
pub proof fn law_every_nested_match_is_copied(
    l: ArchiveListing,
    ps: Seq<NamePatternView>,
    dir: Seq<char>,
    archive: Seq<char>,
    path: Seq<int>,
)
    requires
        file_at(l, path, dir, archive) is Some,
        entry_action_of(file_at(l, path, dir, archive).unwrap().0, ps) == EntryAction::Extract,
    ensures
        ({
            let (n, d, a, k) = file_at(l, path, dir, archive).unwrap();
            copies_from(l, 0, ps, dir, archive).contains((a, k, joined(d, n)))
        }),
    decreases path.len(),
{
    let (n, d, a, k) = file_at(l, path, dir, archive).unwrap();
    let e = (a, k, joined(d, n));
    let i = path[0];
    let rest = copies_from(l, i + 1, ps, dir, archive);
    match l.entries@[i] {
        ArchiveEntry::File(name) => {
            let x = seq![(archive, i, joined(dir, normalized_entry(name@)))];
            assert(x[0] == e);
            lemma_concat_contains(x, rest, e);
        },
        ArchiveEntry::Nested(name, sub) => {
            let copied = joined(dir, normalized_entry(name@));
            let subdir = archive_dir_of(dir, copied);
            law_every_nested_match_is_copied(sub, ps, subdir, copied, path.drop_first());
            lemma_concat_contains(copies_from(sub, 0, ps, subdir, copied), rest, e);
        },
    }
    lemma_copies_suffix(l, 0, i, ps, dir, archive, e);
}

proof fn lemma_contains_split<A>(x: Seq<A>, y: Seq<A>, e: A)
    requires
        (x + y).contains(e),
    ensures
        x.contains(e) || y.contains(e),
{
    let k = choose|k: int| 0 <= k < (x + y).len() && (x + y)[k] == e;
    if k < x.len() {
        assert(x[k] == e);
    } else {
        assert(y[k - x.len()] == e);
    }
}

/// Extraction copies nothing but accepted files: every planned copy is of
/// a file entry that some path of entry indices reaches through nested
/// archives none of which is deny-listed, whose name the matchers accept
/// and is not deny-listed, read from its archive at its index and written
/// under its directory.
pub proof fn law_copies_come_from_accepted_entries(
    l: ArchiveListing,
    i: int,
    ps: Seq<NamePatternView>,
    dir: Seq<char>,
    archive: Seq<char>,
    e: (Seq<char>, int, Seq<char>),
)
    requires
        0 <= i,
        copies_from(l, i, ps, dir, archive).contains(e),
    ensures
        exists|path: Seq<int>|
            #[trigger] file_at(l, path, dir, archive) matches Some(f) && f.2 == e.0 && f.3 == e.1
                && e.2 == joined(f.1, f.0) && entry_action_of(f.0, ps) == EntryAction::Extract
                && !is_denied(f.0),
    decreases l, l.entries.len() - i,
{
    if i >= l.entries.len() {
        assert(copies_from(l, i, ps, dir, archive).len() == 0);
    } else {
        let rest = copies_from(l, i + 1, ps, dir, archive);
        match l.entries@[i] {
            ArchiveEntry::File(name) => {
                let n = normalized_entry(name@);
                if entry_action_of(n, ps) == EntryAction::Extract {
                    let x = seq![(archive, i, joined(dir, n))];
                    lemma_contains_split(x, rest, e);
                    if x.contains(e) {
                        let path = seq![i];
                        assert(file_at(l, path, dir, archive) == Some((n, dir, archive, i)));
                    } else {
                        law_copies_come_from_accepted_entries(l, i + 1, ps, dir, archive, e);
                    }
                } else {
                    law_copies_come_from_accepted_entries(l, i + 1, ps, dir, archive, e);
                }
            },
            ArchiveEntry::Nested(name, sub) => {
                let n = normalized_entry(name@);
                let copied = joined(dir, n);
                if is_denied(n) {
                    law_copies_come_from_accepted_entries(l, i + 1, ps, dir, archive, e);
                } else {
                    let subdir = archive_dir_of(dir, copied);
                    let inner = copies_from(sub, 0, ps, subdir, copied);
                    lemma_contains_split(inner, rest, e);
                    if inner.contains(e) {
                        assert(decreases_to!(l => l.entries));
                        assert(decreases_to!(l.entries => l.entries[i]));
                        law_copies_come_from_accepted_entries(sub, 0, ps, subdir, copied, e);
                        let sp = choose|sp: Seq<int>|
                            #[trigger] file_at(sub, sp, subdir, copied) matches Some(f) && f.2
                                == e.0 && f.3 == e.1 && e.2 == joined(f.1, f.0) && entry_action_of(
                                f.0,
                                ps,
                            ) == EntryAction::Extract && !is_denied(f.0);
                        let path = seq![i] + sp;
                        assert(path.drop_first() =~= sp);
                        assert(file_at(l, path, dir, archive) == file_at(sub, sp, subdir, copied));
                    } else {
                        law_copies_come_from_accepted_entries(l, i + 1, ps, dir, archive, e);
                    }
                }
            },
        }
    }
}

} // verus!
