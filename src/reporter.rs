//! The report and diff engine: groups a snapshot's sites by function, module
//! or file, filters, sorts and truncates them, renders them, and compares two
//! snapshots.

use vstd::prelude::*;
use crate::profiler::{copy_strings, AllocationSite, ProfileSnapshot, SiteView, SnapshotView};
use crate::symbols::strings_view;
use crate::text::{
    chars_lt, chars_of, contains_chars, contains_seq, decimal, digit, digit_char, find_from,
    find_seq, lemma_find_from_found, lemma_find_last_found, lex_lt, lower_of, lowercase,
    push_decimal, push_str, rfind, rfind_seq, slice_chars, string_of, trim_chars, trimmed,
};

verus! {

/// How a report is written.
#[derive(Debug, Clone, Copy, PartialEq, Eq, Structural)]
pub enum OutputFormat {
    Text,
    Json,
}

/// The order of report entries.
#[derive(Debug, Clone, Copy, PartialEq, Eq, Structural)]
pub enum SortBy {
    Count,
    Size,
    Name,
}

/// The granularity at which sites are merged.
#[derive(Debug, Clone, Copy, PartialEq, Eq, Structural)]
pub enum GroupBy {
    Function,
    Module,
    File,
}

/// What a report shows and how.
pub struct ReportOptions {
    pub verbosity: u8,
    pub filter: Option<String>,
    pub format: OutputFormat,
    pub min_count: Option<usize>,
    pub threshold_bytes: Option<usize>,
    pub sort_by: SortBy,
    pub limit: Option<usize>,
    pub save: Option<String>,
    pub compare: Option<String>,
    pub group_by: GroupBy,
}

impl Default for ReportOptions {
    fn default() -> (r: ReportOptions)
        ensures
            r.verbosity == 0,
            r.filter is None,
            r.format == OutputFormat::Text,
            r.min_count is None,
            r.threshold_bytes is None,
            r.sort_by == SortBy::Count,
            r.limit is None,
            r.save is None,
            r.compare is None,
            r.group_by == GroupBy::Function,
    {
        ReportOptions {
            verbosity: 0,
            filter: None,
            format: OutputFormat::Text,
            min_count: None,
            threshold_bytes: None,
            sort_by: SortBy::Count,
            limit: None,
            save: None,
            compare: None,
            group_by: GroupBy::Function,
        }
    }
}

/// The qualified name of a frame: the text before its `(file:line)` suffix.
pub open spec fn function_name(frame: Seq<char>) -> Seq<char> {
    let p = find_from(frame, "("@, 0);
    if p >= 0 {
        trimmed(frame.subrange(0, p))
    } else {
        frame
    }
}

/// The first two `::` segments of a frame's qualified name, or the whole name
/// when it has fewer.
pub open spec fn module_name(frame: Seq<char>) -> Seq<char> {
    let f = function_name(frame);
    let p1 = find_from(f, "::"@, 0);
    if p1 < 0 {
        f
    } else {
        let p2 = find_from(f, "::"@, p1 + "::"@.len());
        if p2 < 0 {
            f
        } else {
            f.subrange(0, p2)
        }
    }
}

/// Index of the last path separator at or before `i`, or -1.
pub open spec fn last_separator(path: Seq<char>, i: int) -> int
    decreases i + 1,
{
    if i < 0 {
        -1
    } else if path[i] == '/' || path[i] == '\\' {
        i
    } else {
        last_separator(path, i - 1)
    }
}

/// The bare file name of a frame's `(path:line)` suffix, or `unknown`.
pub open spec fn file_name(frame: Seq<char>) -> Seq<char> {
    let s = find_from(frame, "("@, 0);
    let e = rfind(frame, ":"@);
    if s >= 0 && e > s {
        let path = frame.subrange(s + 1, e);
        let k = last_separator(path, path.len() - 1);
        if k >= 0 {
            path.subrange(k + 1, path.len() as int)
        } else {
            path
        }
    } else {
        "unknown"@
    }
}

/// The grouping key of a frame.
pub open spec fn group_key(frame: Seq<char>, by: GroupBy) -> Seq<char> {
    match by {
        GroupBy::Function => function_name(frame),
        GroupBy::Module => module_name(frame),
        GroupBy::File => file_name(frame),
    }
}

fn function_chars(frame: &Vec<char>) -> (r: Vec<char>)
    ensures
        r@ == function_name(frame@),
{
    match find_seq(frame, &chars_of("("), 0) {
        Some(p) => {
            proof {
                lemma_find_from_found(frame@, "("@, 0);
            }
            trim_chars(&slice_chars(frame, 0, p))
        },
        None => slice_chars(frame, 0, frame.len()),
    }
}

fn module_chars(frame: &Vec<char>) -> (r: Vec<char>)
    ensures
        r@ == module_name(frame@),
{
    let f = function_chars(frame);
    let sep = chars_of("::");
    let n = f.len();
    match find_seq(&f, &sep, 0) {
        None => f,
        Some(p1) => {
            proof {
                lemma_find_from_found(f@, sep@, 0);
                assert(p1 + sep@.len() <= n);
            }
            match find_seq(&f, &sep, p1 + sep.len()) {
                None => f,
                Some(p2) => {
                    proof {
                        lemma_find_from_found(f@, sep@, p1 + sep@.len());
                    }
                    slice_chars(&f, 0, p2)
                },
            }
        },
    }
}

fn file_chars(frame: &Vec<char>) -> (r: Vec<char>)
    ensures
        r@ == file_name(frame@),
{
    let s = find_seq(frame, &chars_of("("), 0);
    let e = rfind_seq(frame, &chars_of(":"));
    proof {
        lemma_find_from_found(frame@, "("@, 0);
        lemma_find_last_found(frame@, ":"@, frame@.len() - ":"@.len());
    }
    match (s, e) {
        (Some(s), Some(e)) => {
            if e > s {
                let path = slice_chars(frame, s + 1, e);
                let mut k: usize = path.len();
                while k > 0 && path[k - 1] != '/' && path[k - 1] != '\\'
                    invariant
                        k <= path@.len(),
                        last_separator(path@, path@.len() - 1) == last_separator(path@, k - 1),
                    decreases k,
                {
                    k = k - 1;
                }
                if k > 0 {
                    slice_chars(&path, k, path.len())
                } else {
                    path
                }
            } else {
                chars_of("unknown")
            }
        },
        _ => chars_of("unknown"),
    }
}

/// The grouping key of a frame under `by`.
pub fn group_key_of(frame: &String, by: GroupBy) -> (r: String)
    ensures
        r@ == group_key(frame@, by),
{
    let cs = chars_of(frame.as_str());
    let key = match by {
        GroupBy::Function => function_chars(&cs),
        GroupBy::Module => module_chars(&cs),
        GroupBy::File => file_chars(&cs),
    };
    string_of(&key)
}

/// One report entry: sites merged under one key.
#[derive(Debug)]
pub struct SiteGroup {
    pub name: String,
    pub count: usize,
    pub total_bytes: usize,
    pub frames: Vec<String>,
}

/// The mathematical value of a `SiteGroup`.
pub struct GroupView {
    pub name: Seq<char>,
    pub count: nat,
    pub total_bytes: nat,
    pub frames: Seq<Seq<char>>,
}

impl View for SiteGroup {
    type V = GroupView;

    open spec fn view(&self) -> GroupView {
        GroupView {
            name: self.name@,
            count: self.count as nat,
            total_bytes: self.total_bytes as nat,
            frames: strings_view(self.frames@),
        }
    }
}

/// The views of a sequence of groups.
pub open spec fn groups_view(gs: Seq<SiteGroup>) -> Seq<GroupView> {
    gs.map_values(|g: SiteGroup| g@)
}

/// `a + b`, held at `usize::MAX`.
pub open spec fn sat_add(a: nat, b: nat) -> nat {
    if a + b > usize::MAX {
        usize::MAX as nat
    } else {
        a + b
    }
}

/// `i` is the first index of `gs` whose name is `key`.
pub open spec fn first_named(gs: Seq<GroupView>, key: Seq<char>, i: int) -> bool {
    0 <= i < gs.len() && gs[i].name == key && forall|j: int| 0 <= j < i ==> gs[j].name != key
}

/// The groups after merging `site` under `key`: its counts are added to the
/// group of that key (held at `usize::MAX`), or a group is started at the end
/// with the site's frames as representative.
pub open spec fn merge_site(gs: Seq<GroupView>, key: Seq<char>, site: SiteView) -> Seq<GroupView> {
    if exists|i: int| first_named(gs, key, i) {
        let i = choose|i: int| first_named(gs, key, i);
        gs.update(
            i,
            GroupView {
                count: sat_add(gs[i].count, site.count),
                total_bytes: sat_add(gs[i].total_bytes, site.total_bytes),
                ..gs[i]
            },
        )
    } else {
        gs.push(
            GroupView {
                name: key,
                count: site.count,
                total_bytes: site.total_bytes,
                frames: site.frames,
            },
        )
    }
}

/// The sites merged by the key of their first frame, in order of first
/// appearance; sites without frames are left out.
pub open spec fn grouped(sites: Seq<(Seq<char>, SiteView)>, by: GroupBy) -> Seq<GroupView>
    decreases sites.len(),
{
    if sites.len() == 0 {
        seq![]
    } else {
        let gs = grouped(sites.drop_last(), by);
        let site = sites.last().1;
        if site.frames.len() == 0 {
            gs
        } else {
            merge_site(gs, group_key(site.frames[0], by), site)
        }
    }
}

/// A group passes the name filter (case-insensitive substring), the minimum
/// count and the minimum bytes.
pub open spec fn keep(g: GroupView, options: ReportOptions) -> bool {
    &&& match options.filter {
        Some(f) => contains_seq(lower_of(g.name), lower_of(f@)),
        None => true,
    }
    &&& match options.min_count {
        Some(m) => g.count >= m,
        None => true,
    }
    &&& match options.threshold_bytes {
        Some(t) => g.total_bytes >= t,
        None => true,
    }
}

/// The groups that pass `keep`, in order.
pub open spec fn kept(gs: Seq<GroupView>, options: ReportOptions) -> Seq<GroupView>
    decreases gs.len(),
{
    if gs.len() == 0 {
        seq![]
    } else {
        let k = kept(gs.drop_last(), options);
        if keep(gs.last(), options) {
            k.push(gs.last())
        } else {
            k
        }
    }
}

/// `a` goes strictly before `b` under the sort key.
pub open spec fn precedes(a: GroupView, b: GroupView, by: SortBy) -> bool {
    match by {
        SortBy::Count => a.count > b.count,
        SortBy::Size => a.total_bytes > b.total_bytes,
        SortBy::Name => lex_lt(a.name, b.name),
    }
}

/// `x` placed into `sorted` before the first entry it strictly precedes.
pub open spec fn insert_sorted(sorted: Seq<GroupView>, x: GroupView, by: SortBy) -> Seq<GroupView>
    decreases sorted.len(),
{
    if sorted.len() == 0 {
        seq![x]
    } else if precedes(x, sorted[0], by) {
        seq![x] + sorted
    } else {
        seq![sorted[0]] + insert_sorted(sorted.drop_first(), x, by)
    }
}

/// `gs` sorted by the key, stably: entries that tie keep their order.
pub open spec fn sorted_groups(gs: Seq<GroupView>, by: SortBy) -> Seq<GroupView>
    decreases gs.len(),
{
    if gs.len() == 0 {
        seq![]
    } else {
        insert_sorted(sorted_groups(gs.drop_last(), by), gs.last(), by)
    }
}

/// At most the first `limit` entries.
pub open spec fn limited(gs: Seq<GroupView>, limit: Option<usize>) -> Seq<GroupView> {
    match limit {
        Some(l) => if l < gs.len() {
            gs.take(l as int)
        } else {
            gs
        },
        None => gs,
    }
}

/// The entries of a report on `snapshot`.
pub open spec fn prepared(snapshot: SnapshotView, options: ReportOptions) -> Seq<GroupView> {
    limited(
        sorted_groups(kept(grouped(snapshot.sites, options.group_by), options), options.sort_by),
        options.limit,
    )
}

fn saturating(a: usize, b: usize) -> (r: usize)
    ensures
        r == sat_add(a as nat, b as nat),
{
    if a > usize::MAX - b {
        usize::MAX
    } else {
        a + b
    }
}

/// Merges the sites of `sites` by the key of their first frame.
fn group_sites(sites: &Vec<(String, AllocationSite)>, by: GroupBy) -> (r: Vec<SiteGroup>)
    ensures
        groups_view(r@) == grouped(crate::profiler::table_view(sites@), by),
{
    let mut r: Vec<SiteGroup> = Vec::new();
    let mut i: usize = 0;
    while i < sites.len()
        invariant
            i <= sites@.len(),
            groups_view(r@) == grouped(crate::profiler::table_view(sites@.take(i as int)), by),
        decreases sites@.len() - i,
    {
        let ghost prev = crate::profiler::table_view(sites@.take(i as int));
        let ghost next = crate::profiler::table_view(sites@.take(i + 1));
        assert(next.drop_last() =~= prev);
        let site = &sites[i].1;
        assert(next.last().1 == site@);
        if site.frames.len() > 0 {
            let key = group_key_of(&site.frames[0], by);
            let ghost gv = groups_view(r@);
            let mut j: usize = 0;
            while j < r.len() && r[j].name != key
                invariant
                    j <= r@.len(),
                    gv == groups_view(r@),
                    forall|m: int| 0 <= m < j ==> r@[m].name@ != key@,
                decreases r@.len() - j,
            {
                j = j + 1;
            }
            if j < r.len() {
                proof {
                    assert(first_named(gv, key@, j as int));
                    let k = choose|k: int| first_named(gv, key@, k);
                    assert(k == j);
                }
                let g = r.remove(j);
                let merged = SiteGroup {
                    name: g.name,
                    count: saturating(g.count, site.count),
                    total_bytes: saturating(g.total_bytes, site.total_bytes),
                    frames: g.frames,
                };
                r.insert(j, merged);
                assert(groups_view(r@) =~= merge_site(gv, key@, site@));
            } else {
                assert(!exists|k: int| first_named(gv, key@, k));
                r.push(
                    SiteGroup {
                        name: key,
                        count: site.count,
                        total_bytes: site.total_bytes,
                        frames: copy_strings(&site.frames),
                    },
                );
                assert(groups_view(r@) =~= merge_site(gv, key@, site@));
            }
        }
        i = i + 1;
    }
    assert(sites@.take(sites@.len() as int) =~= sites@);
    r
}

/// Whether a lowercased key holds a lowercased filter; the comparison behind
/// the case-insensitive name filter.
pub fn name_matches_folded(lower_key: &str, lower_filter: &str) -> (r: bool)
    ensures
        r == contains_seq(lower_key@, lower_filter@),
{
    contains_chars(&chars_of(lower_key), &chars_of(lower_filter))
}

/// Whether `g` passes the filters of `options`.
fn passes(g: &SiteGroup, options: &ReportOptions) -> (r: bool)
    ensures
        r == keep(g@, *options),
{
    let name_ok = match &options.filter {
        Some(f) => {
            let lower_key = lowercase(g.name.as_str());
            let lower_filter = lowercase(f.as_str());
            name_matches_folded(lower_key.as_str(), lower_filter.as_str())
        },
        None => true,
    };
    let count_ok = match options.min_count {
        Some(m) => g.count >= m,
        None => true,
    };
    let bytes_ok = match options.threshold_bytes {
        Some(t) => g.total_bytes >= t,
        None => true,
    };
    name_ok && count_ok && bytes_ok
}

/// The groups of `gs` that pass the filters, in order.
fn filter_groups(gs: Vec<SiteGroup>, options: &ReportOptions) -> (r: Vec<SiteGroup>)
    ensures
        groups_view(r@) == kept(groups_view(gs@), *options),
{
    let ghost all = groups_view(gs@);
    let mut src = gs;
    let mut r: Vec<SiteGroup> = Vec::new();
    let ghost mut i: int = 0;
    while src.len() > 0
        invariant
            0 <= i <= all.len(),
            groups_view(src@) == all.subrange(i, all.len() as int),
            groups_view(r@) == kept(all.take(i), *options),
        decreases src@.len(),
    {
        let ghost old_src = src@;
        let g = src.remove(0);
        proof {
            assert(groups_view(old_src).len() == old_src.len());
            assert(groups_view(old_src)[0] == g@);
            assert(all.subrange(i, all.len() as int)[0] == all[i]);
            assert(src@ =~= old_src.subrange(1, old_src.len() as int));
            assert forall|k: int| 0 <= k < src@.len() implies groups_view(src@)[k] == all[i + 1
                + k] by {
                assert(groups_view(src@)[k] == groups_view(old_src)[k + 1]);
                assert(all.subrange(i, all.len() as int)[k + 1] == all[i + 1 + k]);
            }
            assert(groups_view(src@) =~= all.subrange(i + 1, all.len() as int));
            assert(all.take(i + 1).drop_last() =~= all.take(i));
            assert(all.take(i + 1).last() == g@);
        }
        if passes(&g, options) {
            let ghost before = r@;
            r.push(g);
            assert(groups_view(r@) =~= groups_view(before).push(g@));
        }
        proof {
            i = i + 1;
        }
    }
    assert(all.take(i) =~= all);
    r
}

/// Whether `a` goes strictly before `b` under the sort key.
fn group_precedes(a: &SiteGroup, b: &SiteGroup, by: SortBy) -> (r: bool)
    ensures
        r == precedes(a@, b@, by),
{
    match by {
        SortBy::Count => a.count > b.count,
        SortBy::Size => a.total_bytes > b.total_bytes,
        SortBy::Name => chars_lt(&chars_of(a.name.as_str()), &chars_of(b.name.as_str())),
    }
}

proof fn lemma_insert_at(sorted: Seq<GroupView>, x: GroupView, by: SortBy, p: int)
    requires
        0 <= p <= sorted.len(),
        forall|j: int| 0 <= j < p ==> !precedes(x, #[trigger] sorted[j], by),
        p < sorted.len() ==> precedes(x, sorted[p], by),
    ensures
        insert_sorted(sorted, x, by) == sorted.insert(p, x),
    decreases p,
{
    if p == 0 {
        if sorted.len() == 0 {
            assert(sorted.insert(0, x) =~= seq![x]);
        } else {
            assert(sorted.insert(0, x) =~= seq![x] + sorted);
        }
    } else {
        let rest = sorted.drop_first();
        assert forall|j: int| 0 <= j < p - 1 implies !precedes(x, #[trigger] rest[j], by) by {
            assert(rest[j] == sorted[j + 1]);
        }
        lemma_insert_at(rest, x, by, p - 1);
        assert(sorted.insert(p, x) =~= seq![sorted[0]] + rest.insert(p - 1, x));
    }
}

/// `gs` sorted stably by the key.
fn sort_groups(gs: Vec<SiteGroup>, by: SortBy) -> (r: Vec<SiteGroup>)
    ensures
        groups_view(r@) == sorted_groups(groups_view(gs@), by),
{
    let ghost all = groups_view(gs@);
    let mut src = gs;
    let mut r: Vec<SiteGroup> = Vec::new();
    let ghost mut i: int = 0;
    while src.len() > 0
        invariant
            0 <= i <= all.len(),
            groups_view(src@) == all.subrange(i, all.len() as int),
            groups_view(r@) == sorted_groups(all.take(i), by),
        decreases src@.len(),
    {
        let ghost old_src = src@;
        let g = src.remove(0);
        proof {
            assert(groups_view(old_src).len() == old_src.len());
            assert(groups_view(old_src)[0] == g@);
            assert(all.subrange(i, all.len() as int)[0] == all[i]);
            assert(src@ =~= old_src.subrange(1, old_src.len() as int));
            assert forall|k: int| 0 <= k < src@.len() implies groups_view(src@)[k] == all[i + 1
                + k] by {
                assert(groups_view(src@)[k] == groups_view(old_src)[k + 1]);
                assert(all.subrange(i, all.len() as int)[k + 1] == all[i + 1 + k]);
            }
            assert(groups_view(src@) =~= all.subrange(i + 1, all.len() as int));
            assert(all.take(i + 1).drop_last() =~= all.take(i));
            assert(all.take(i + 1).last() == g@);
        }
        let mut p: usize = 0;
        while p < r.len() && !group_precedes(&g, &r[p], by)
            invariant
                p <= r@.len(),
                forall|j: int| 0 <= j < p ==> !precedes(g@, #[trigger] groups_view(r@)[j], by),
            decreases r@.len() - p,
        {
            p = p + 1;
        }
        let ghost before = groups_view(r@);
        proof {
            lemma_insert_at(before, g@, by, p as int);
        }
        r.insert(p, g);
        assert(groups_view(r@) =~= before.insert(p as int, g@));
        proof {
            i = i + 1;
        }
    }
    assert(all.take(i) =~= all);
    r
}

/// `bytes / 1024` in hundredths, rounded to nearest with ties to even, as
/// two-decimal formatting of the exact quotient gives it.
pub open spec fn kb_hundredths(bytes: nat) -> nat {
    let q = bytes * 100 / 1024;
    let r = bytes * 100 % 1024;
    if r > 512 || (r == 512 && q % 2 == 1) {
        q + 1
    } else {
        q
    }
}

/// `bytes` in kilobytes with two decimals.
pub open spec fn kb_text(bytes: nat) -> Seq<char> {
    let h = kb_hundredths(bytes);
    decimal(h / 100) + seq!['.', digit((h % 100) / 10), digit(h % 10)]
}

/// Appends `bytes` in kilobytes with two decimals.
fn push_kb(out: &mut Vec<char>, bytes: usize)
    ensures
        final(out)@ == old(out)@ + kb_text(bytes as nat),
{
    let scaled: u128 = (bytes as u128) * 100;
    let q = scaled / 1024;
    let r = scaled % 1024;
    let h = if r > 512 || (r == 512 && q % 2 == 1) {
        q + 1
    } else {
        q
    };
    assert(h == kb_hundredths(bytes as nat));
    assert(h / 100 <= u64::MAX) by {
        assert(scaled <= 100 * (usize::MAX as int));
    }
    let ghost before = out@;
    push_decimal(out, (h / 100) as u64);
    out.push('.');
    out.push(digit_char(((h % 100) / 10) as u64));
    out.push(digit_char((h % 10) as u64));
    assert(out@ =~= before + kb_text(bytes as nat));
}

/// The first line of a text entry: key and count, then the kilobytes from
/// verbosity 1 and the first frame from verbosity 2.
pub open spec fn entry_head(g: GroupView, verbosity: u8) -> Seq<char> {
    g.name + ": "@ + decimal(g.count) + (if verbosity >= 1 {
        " ("@ + kb_text(g.total_bytes) + " KB)"@
    } else {
        seq![]
    }) + (if verbosity >= 2 && g.frames.len() > 0 {
        " ["@ + g.frames[0] + "]"@
    } else {
        seq![]
    })
}

/// How many frames after the first are listed below an entry: at most five.
pub open spec fn frames_below(n: nat) -> nat {
    if n <= 1 {
        0
    } else if n - 1 > 5 {
        5
    } else {
        (n - 1) as nat
    }
}

/// The line listing frame `i + 1` below an entry.
pub open spec fn stack_line(frames: Seq<Seq<char>>, i: int) -> Seq<char> {
    "  "@ + (if i == 0 {
        "\u{2514}\u{2500}"@
    } else {
        "  "@
    }) + " "@ + frames[i + 1]
}

/// The lines below an entry at verbosity 3: up to five more frames, and how
/// many were left out.
pub open spec fn stack_lines(frames: Seq<Seq<char>>, verbosity: u8) -> Seq<Seq<char>> {
    if verbosity < 3 {
        seq![]
    } else {
        Seq::new(frames_below(frames.len()), |i: int| stack_line(frames, i)) + (if frames.len()
            > 6 {
            seq!["     ... "@ + decimal((frames.len() - 6) as nat) + " more frames"@]
        } else {
            seq![]
        })
    }
}

/// The lines of one text entry.
pub open spec fn entry_lines(g: GroupView, verbosity: u8) -> Seq<Seq<char>> {
    seq![entry_head(g, verbosity)] + stack_lines(g.frames, verbosity)
}

/// The lines of every entry, in order.
pub open spec fn all_entry_lines(gs: Seq<GroupView>, verbosity: u8) -> Seq<Seq<char>>
    decreases gs.len(),
{
    if gs.len() == 0 {
        seq![]
    } else {
        all_entry_lines(gs.drop_last(), verbosity) + entry_lines(gs.last(), verbosity)
    }
}

/// The body of a text report.
pub open spec fn text_report(gs: Seq<GroupView>, verbosity: u8) -> Seq<Seq<char>> {
    if gs.len() == 0 {
        seq!["  No allocations recorded."@]
    } else {
        all_entry_lines(gs, verbosity)
    }
}

fn entry_head_text(g: &SiteGroup, verbosity: u8) -> (r: String)
    ensures
        r@ == entry_head(g@, verbosity),
{
    let mut out = chars_of(g.name.as_str());
    push_str(&mut out, ": ");
    push_decimal(&mut out, g.count as u64);
    if verbosity >= 1 {
        push_str(&mut out, " (");
        push_kb(&mut out, g.total_bytes);
        push_str(&mut out, " KB)");
    }
    if verbosity >= 2 && g.frames.len() > 0 {
        push_str(&mut out, " [");
        push_str(&mut out, g.frames[0].as_str());
        push_str(&mut out, "]");
    }
    assert(out@ =~= entry_head(g@, verbosity));
    string_of(&out)
}

fn push_entry_lines(lines: &mut Vec<String>, g: &SiteGroup, verbosity: u8)
    ensures
        strings_view(final(lines)@) == strings_view(old(lines)@) + entry_lines(g@, verbosity),
{
    let ghost fr = strings_view(g.frames@);
    let ghost start = strings_view(lines@);
    let head = entry_head_text(g, verbosity);
    lines.push(head);
    assert(strings_view(lines@) =~= start + seq![entry_head(g@, verbosity)]);
    if verbosity >= 3 {
        let n = g.frames.len();
        let shown: usize = if n <= 1 {
            0
        } else if n - 1 > 5 {
            5
        } else {
            n - 1
        };
        let ghost below = Seq::new(frames_below(fr.len()), |i: int| stack_line(fr, i));
        let mut i: usize = 0;
        while i < shown
            invariant
                n == fr.len(),
                shown == frames_below(fr.len()),
                i <= shown,
                fr == strings_view(g.frames@),
                below == Seq::new(frames_below(fr.len()), |i: int| stack_line(fr, i)),
                strings_view(lines@) == start + seq![entry_head(g@, verbosity)] + below.take(
                    i as int,
                ),
            decreases shown - i,
        {
            let ghost prev = strings_view(lines@);
            let mut out: Vec<char> = Vec::new();
            push_str(&mut out, "  ");
            if i == 0 {
                push_str(&mut out, "\u{2514}\u{2500}");
            } else {
                push_str(&mut out, "  ");
            }
            push_str(&mut out, " ");
            push_str(&mut out, g.frames[i + 1].as_str());
            assert(out@ =~= stack_line(fr, i as int));
            lines.push(string_of(&out));
            assert(below.take(i + 1) =~= below.take(i as int).push(below[i as int]));
            assert(strings_view(lines@) =~= prev.push(stack_line(fr, i as int)));
            i = i + 1;
        }
        assert(below.take(shown as int) =~= below);
        if n > 6 {
            let ghost prev = strings_view(lines@);
            let mut out: Vec<char> = Vec::new();
            push_str(&mut out, "     ... ");
            push_decimal(&mut out, (n - 6) as u64);
            push_str(&mut out, " more frames");
            lines.push(string_of(&out));
            assert(strings_view(lines@) =~= prev.push(
                "     ... "@ + decimal((fr.len() - 6) as nat) + " more frames"@,
            ));
        }
        assert(strings_view(lines@) =~= start + entry_lines(g@, verbosity));
    } else {
        assert(strings_view(lines@) =~= start + entry_lines(g@, verbosity));
    }
}

/// How a key differs between a baseline and a current report.
#[derive(Debug, Clone, Copy, PartialEq, Eq, Structural)]
pub enum SiteChange {
    Changed { baseline_count: usize, current_count: usize, baseline_bytes: usize, current_bytes: usize },
    Added { count: usize, total_bytes: usize },
    Removed { count: usize, total_bytes: usize },
}

/// One line of a comparison.
#[derive(Debug)]
pub struct ComparisonEntry {
    pub name: String,
    pub change: SiteChange,
}

/// The views of comparison entries.
pub open spec fn entries_view(es: Seq<ComparisonEntry>) -> Seq<(Seq<char>, SiteChange)> {
    es.map_values(|e: ComparisonEntry| (e.name@, e.change))
}

/// The change of a current entry against the baseline entries.
pub open spec fn change_of(c: GroupView, base: Seq<GroupView>) -> SiteChange {
    if exists|i: int| first_named(base, c.name, i) {
        let b = base[choose|i: int| first_named(base, c.name, i)];
        SiteChange::Changed {
            baseline_count: b.count as usize,
            current_count: c.count as usize,
            baseline_bytes: b.total_bytes as usize,
            current_bytes: c.total_bytes as usize,
        }
    } else {
        SiteChange::Added { count: c.count as usize, total_bytes: c.total_bytes as usize }
    }
}

/// Some entry of `gs` has name `name`.
pub open spec fn has_name(gs: Seq<GroupView>, name: Seq<char>) -> bool {
    exists|i: int| 0 <= i < gs.len() && gs[i].name == name
}

/// The baseline entries whose key the current report lacks, in order.
pub open spec fn removed_entries(cur: Seq<GroupView>, base: Seq<GroupView>) -> Seq<
    (Seq<char>, SiteChange),
>
    decreases base.len(),
{
    if base.len() == 0 {
        seq![]
    } else {
        let r = removed_entries(cur, base.drop_last());
        let b = base.last();
        if has_name(cur, b.name) {
            r
        } else {
            r.push(
                (
                    b.name,
                    SiteChange::Removed {
                        count: b.count as usize,
                        total_bytes: b.total_bytes as usize,
                    },
                ),
            )
        }
    }
}

/// Every current entry with its change against the baseline, then every key
/// that only the baseline has.
pub open spec fn comparison(cur: Seq<GroupView>, base: Seq<GroupView>) -> Seq<
    (Seq<char>, SiteChange),
> {
    cur.map_values(|c: GroupView| (c.name, change_of(c, base))) + removed_entries(cur, base)
}

/// A signed count difference: `+N`, `-N` or `±0`.
pub open spec fn signed_count(d: int) -> Seq<char> {
    if d > 0 {
        "+"@ + decimal(d as nat)
    } else if d < 0 {
        "-"@ + decimal((-d) as nat)
    } else {
        "\u{b1}0"@
    }
}

/// A signed byte difference in kilobytes.
pub open spec fn bytes_delta(d: int) -> Seq<char> {
    if d > 0 {
        "(+"@ + kb_text(d as nat) + " KB)"@
    } else if d < 0 {
        "(-"@ + kb_text((-d) as nat) + " KB)"@
    } else {
        "(\u{b1}0 KB)"@
    }
}

/// The text line of one comparison entry.
pub open spec fn comparison_line(name: Seq<char>, change: SiteChange) -> Seq<char> {
    match change {
        SiteChange::Changed { baseline_count, current_count, baseline_bytes, current_bytes } => name
            + ": "@ + decimal(baseline_count as nat) + " \u{2192} "@ + decimal(current_count as nat)
            + " "@ + signed_count(current_count - baseline_count) + " "@ + bytes_delta(
            current_bytes - baseline_bytes,
        ),
        SiteChange::Added { count, total_bytes } => name + ": "@ + decimal(count as nat)
            + " [NEW] ("@ + kb_text(total_bytes as nat) + " KB)"@,
        SiteChange::Removed { count, total_bytes } => name + ": "@ + decimal(count as nat)
            + " [REMOVED] ("@ + kb_text(total_bytes as nat) + " KB)"@,
    }
}

/// Position of the first entry of `gs` named `name`.
fn find_group(gs: &Vec<SiteGroup>, name: &String) -> (r: Option<usize>)
    ensures
        match r {
            Some(i) => first_named(groups_view(gs@), name@, i as int),
            None => !has_name(groups_view(gs@), name@),
        },
{
    let mut i: usize = 0;
    while i < gs.len()
        invariant
            i <= gs@.len(),
            forall|j: int| 0 <= j < i ==> gs@[j].name@ != name@,
        decreases gs@.len() - i,
    {
        if gs[i].name == *name {
            return Some(i);
        }
        i = i + 1;
    }
    None
}

fn push_signed_count(out: &mut Vec<char>, before: usize, after: usize)
    ensures
        final(out)@ == old(out)@ + signed_count(after - before),
{
    if after > before {
        push_str(out, "+");
        push_decimal(out, (after - before) as u64);
    } else if after < before {
        push_str(out, "-");
        push_decimal(out, (before - after) as u64);
    } else {
        push_str(out, "\u{b1}0");
    }
}

fn push_bytes_delta(out: &mut Vec<char>, before: usize, after: usize)
    ensures
        final(out)@ == old(out)@ + bytes_delta(after - before),
{
    if after > before {
        push_str(out, "(+");
        push_kb(out, after - before);
        push_str(out, " KB)");
    } else if after < before {
        push_str(out, "(-");
        push_kb(out, before - after);
        push_str(out, " KB)");
    } else {
        push_str(out, "(\u{b1}0 KB)");
    }
}

fn comparison_text(e: &ComparisonEntry) -> (r: String)
    ensures
        r@ == comparison_line(e.name@, e.change),
{
    let mut out = chars_of(e.name.as_str());
    push_str(&mut out, ": ");
    match e.change {
        SiteChange::Changed { baseline_count, current_count, baseline_bytes, current_bytes } => {
            push_decimal(&mut out, baseline_count as u64);
            push_str(&mut out, " \u{2192} ");
            push_decimal(&mut out, current_count as u64);
            push_str(&mut out, " ");
            push_signed_count(&mut out, baseline_count, current_count);
            push_str(&mut out, " ");
            push_bytes_delta(&mut out, baseline_bytes, current_bytes);
        },
        SiteChange::Added { count, total_bytes } => {
            push_decimal(&mut out, count as u64);
            push_str(&mut out, " [NEW] (");
            push_kb(&mut out, total_bytes);
            push_str(&mut out, " KB)");
        },
        SiteChange::Removed { count, total_bytes } => {
            push_decimal(&mut out, count as u64);
            push_str(&mut out, " [REMOVED] (");
            push_kb(&mut out, total_bytes);
            push_str(&mut out, " KB)");
        },
    }
    assert(out@ =~= comparison_line(e.name@, e.change));
    string_of(&out)
}

/// One entry of a structured report; fields beyond the key and the count
/// appear with the verbosity.
#[derive(Debug)]
pub struct ReportEntry {
    pub function: String,
    pub count: usize,
    pub total_bytes: Option<usize>,
    pub location: Option<String>,
    pub stack_trace: Option<Vec<String>>,
}

/// No entry of `gs` goes strictly before an earlier one under the sort key.
pub open spec fn sorted_by(gs: Seq<GroupView>, by: SortBy) -> bool {
    forall|i: int, j: int| 0 <= i < j < gs.len() ==> !precedes(gs[j], gs[i], by)
}

proof fn lemma_lex_lt_asymmetric(a: Seq<char>, b: Seq<char>)
    ensures
        !(lex_lt(a, b) && lex_lt(b, a)),
    decreases a.len(),
{
    if a.len() > 0 && b.len() > 0 && a[0] == b[0] {
        lemma_lex_lt_asymmetric(a.drop_first(), b.drop_first());
    }
}

proof fn lemma_lex_lt_transitive(a: Seq<char>, b: Seq<char>, c: Seq<char>)
    requires
        lex_lt(a, b),
        lex_lt(b, c),
    ensures
        lex_lt(a, c),
    decreases a.len(),
{
    if a.len() > 0 && b.len() > 0 && c.len() > 0 && a[0] == b[0] && b[0] == c[0] {
        lemma_lex_lt_transitive(a.drop_first(), b.drop_first(), c.drop_first());
    }
}

proof fn lemma_precedes_order(a: GroupView, b: GroupView, c: GroupView, by: SortBy)
    ensures
        !(precedes(a, b, by) && precedes(b, a, by)),
        precedes(a, b, by) && precedes(b, c, by) ==> precedes(a, c, by),
{
    if by == SortBy::Name {
        lemma_lex_lt_asymmetric(a.name, b.name);
        if lex_lt(a.name, b.name) && lex_lt(b.name, c.name) {
            lemma_lex_lt_transitive(a.name, b.name, c.name);
        }
    }
}

proof fn lemma_insert_sorted_elements(s: Seq<GroupView>, x: GroupView, by: SortBy)
    ensures
        insert_sorted(s, x, by).len() == s.len() + 1,
        forall|k: int|
            0 <= k < s.len() + 1 ==> insert_sorted(s, x, by)[k] == x || exists|m: int|
                0 <= m < s.len() && insert_sorted(s, x, by)[k] == s[m],
    decreases s.len(),
{
    if s.len() > 0 && !precedes(x, s[0], by) {
        let rest = s.drop_first();
        lemma_insert_sorted_elements(rest, x, by);
        let r = insert_sorted(s, x, by);
        assert forall|k: int| 0 <= k < s.len() + 1 implies r[k] == x || exists|m: int|
            0 <= m < s.len() && r[k] == s[m] by {
            if k == 0 {
                assert(r[0] == s[0]);
            } else {
                let t = insert_sorted(rest, x, by);
                assert(r[k] == t[k - 1]);
                if t[k - 1] != x {
                    let m = choose|m: int| 0 <= m < rest.len() && t[k - 1] == rest[m];
                    assert(r[k] == s[m + 1]);
                }
            }
        }
    }
}

proof fn lemma_insert_sorted_sorted(s: Seq<GroupView>, x: GroupView, by: SortBy)
    requires
        sorted_by(s, by),
    ensures
        sorted_by(insert_sorted(s, x, by), by),
    decreases s.len(),
{
    let r = insert_sorted(s, x, by);
    if s.len() == 0 {
    } else if precedes(x, s[0], by) {
        assert forall|i: int, j: int| 0 <= i < j < r.len() implies !precedes(r[j], r[i], by) by {
            if i == 0 {
                lemma_precedes_order(s[j - 1], x, s[0], by);
                lemma_precedes_order(s[0], x, s[0], by);
                if j - 1 > 0 {
                    assert(!precedes(s[j - 1], s[0], by));
                }
            } else {
                assert(r[i] == s[i - 1] && r[j] == s[j - 1]);
            }
        }
    } else {
        let rest = s.drop_first();
        assert(sorted_by(rest, by)) by {
            assert forall|i: int, j: int| 0 <= i < j < rest.len() implies !precedes(
                rest[j],
                rest[i],
                by,
            ) by {
                assert(rest[i] == s[i + 1] && rest[j] == s[j + 1]);
            }
        }
        lemma_insert_sorted_sorted(rest, x, by);
        lemma_insert_sorted_elements(rest, x, by);
        let t = insert_sorted(rest, x, by);
        assert forall|i: int, j: int| 0 <= i < j < r.len() implies !precedes(r[j], r[i], by) by {
            if i == 0 {
                assert(r[j] == t[j - 1]);
                if t[j - 1] != x {
                    let m = choose|m: int| 0 <= m < rest.len() && t[j - 1] == rest[m];
                    assert(t[j - 1] == s[m + 1]);
                }
            } else {
                assert(r[i] == t[i - 1] && r[j] == t[j - 1]);
            }
        }
    }
}

proof fn lemma_sorted_groups_sorted(gs: Seq<GroupView>, by: SortBy)
    ensures
        sorted_by(sorted_groups(gs, by), by),
    decreases gs.len(),
{
    if gs.len() > 0 {
        lemma_sorted_groups_sorted(gs.drop_last(), by);
        lemma_insert_sorted_sorted(sorted_groups(gs.drop_last(), by), gs.last(), by);
    }
}

/// A report lists its entries in the order of the configured key: no entry
/// goes strictly before an earlier one under that key.
pub proof fn report_order_follows_sort_key(snapshot: SnapshotView, options: ReportOptions)
    ensures
        sorted_by(prepared(snapshot, options), options.sort_by),
{
    let gs = kept(grouped(snapshot.sites, options.group_by), options);
    lemma_sorted_groups_sorted(gs, options.sort_by);
}

/// A text report is a function of the snapshot and the options: rendering
/// equal snapshots under equal options gives the same lines.
pub proof fn rendering_is_deterministic(a: SnapshotView, b: SnapshotView, options: ReportOptions)
    requires
        a == b,
    ensures
        text_report(prepared(a, options), options.verbosity) == text_report(
            prepared(b, options),
            options.verbosity,
        ),
{
}

/// The report's sites, merged, filtered, ordered and truncated.
pub struct Reporter;

impl Reporter {
    /// The qualified name of `frame`, without its location suffix.
    pub fn extract_function_name(frame: &str) -> (r: String)
        ensures
            r@ == function_name(frame@),
    {
        string_of(&function_chars(&chars_of(frame)))
    }

    /// The first two `::` segments of `frame`'s qualified name.
    pub fn extract_module_name(frame: &str) -> (r: String)
        ensures
            r@ == module_name(frame@),
    {
        string_of(&module_chars(&chars_of(frame)))
    }

    /// The bare file name of `frame`'s location suffix, or `unknown`.
    pub fn extract_file_name(frame: &str) -> (r: String)
        ensures
            r@ == file_name(frame@),
    {
        string_of(&file_chars(&chars_of(frame)))
    }

    /// The entries of a report on `snapshot`: its sites merged by the key of
    /// their first frame, filtered, sorted stably by the configured key, and
    /// truncated to the configured limit.
    pub fn prepare_sites(snapshot: &ProfileSnapshot, options: &ReportOptions) -> (r: Vec<SiteGroup>)
        ensures
            groups_view(r@) == prepared(snapshot@, *options),
    {
        let groups = group_sites(&snapshot.allocation_sites, options.group_by);
        let filtered = filter_groups(groups, options);
        let mut sorted = sort_groups(filtered, options.sort_by);
        if let Some(limit) = options.limit {
            if limit < sorted.len() {
                let ghost before = groups_view(sorted@);
                sorted.truncate(limit);
                assert(groups_view(sorted@) =~= before.take(limit as int));
            }
        }
        sorted
    }

    /// The lines of a text report on the entries `groups`.
    pub fn render_text(groups: &Vec<SiteGroup>, verbosity: u8) -> (r: Vec<String>)
        ensures
            strings_view(r@) == text_report(groups_view(groups@), verbosity),
    {
        let mut lines: Vec<String> = Vec::new();
        if groups.len() == 0 {
            lines.push(String::from_str("  No allocations recorded."));
            assert(strings_view(lines@) =~= seq!["  No allocations recorded."@]);
            return lines;
        }
        let mut i: usize = 0;
        while i < groups.len()
            invariant
                i <= groups@.len(),
                strings_view(lines@) == all_entry_lines(groups_view(groups@.take(i as int)), verbosity),
            decreases groups@.len() - i,
        {
            push_entry_lines(&mut lines, &groups[i], verbosity);
            let ghost next = groups_view(groups@.take(i + 1));
            assert(next.drop_last() =~= groups_view(groups@.take(i as int)));
            assert(next.last() == groups@[i as int]@);
            i = i + 1;
        }
        assert(groups@.take(groups@.len() as int) =~= groups@);
        lines
    }

    /// The structured form of one report entry: the total bytes from
    /// verbosity 1, the first frame from verbosity 2, all frames at verbosity 3.
    pub fn structured_entry(g: &SiteGroup, verbosity: u8) -> (r: ReportEntry)
        ensures
            r.function@ == g.name@,
            r.count == g.count,
            r.total_bytes == (if verbosity >= 1 {
                Some(g.total_bytes)
            } else {
                None
            }),
            match r.location {
                Some(l) => verbosity >= 2 && g.frames@.len() > 0 && l@ == g.frames@[0]@,
                None => !(verbosity >= 2 && g.frames@.len() > 0),
            },
            match r.stack_trace {
                Some(t) => verbosity >= 3 && t@ == g.frames@,
                None => verbosity < 3,
            },
    {
        ReportEntry {
            function: g.name.clone(),
            count: g.count,
            total_bytes: if verbosity >= 1 {
                Some(g.total_bytes)
            } else {
                None
            },
            location: if verbosity >= 2 && g.frames.len() > 0 {
                Some(g.frames[0].clone())
            } else {
                None
            },
            stack_trace: if verbosity >= 3 {
                Some(copy_strings(&g.frames))
            } else {
                None
            },
        }
    }

    /// Compares two snapshots grouped, filtered, sorted and truncated under the
    /// same options: each current entry with its baseline counterpart (or as
    /// added), then each baseline key that the current report lacks (removed).
    pub fn compare_sites(
        current: &ProfileSnapshot,
        baseline: &ProfileSnapshot,
        options: &ReportOptions,
    ) -> (r: Vec<ComparisonEntry>)
        ensures
            entries_view(r@) == comparison(prepared(current@, *options), prepared(baseline@, *options)),
    {
        let cur = Self::prepare_sites(current, options);
        let base = Self::prepare_sites(baseline, options);
        let ghost cv = groups_view(cur@);
        let ghost bv = groups_view(base@);
        let mut r: Vec<ComparisonEntry> = Vec::new();
        let mut i: usize = 0;
        while i < cur.len()
            invariant
                i <= cur@.len(),
                cv == groups_view(cur@),
                bv == groups_view(base@),
                entries_view(r@) == cv.take(i as int).map_values(
                    |c: GroupView| (c.name, change_of(c, bv)),
                ),
            decreases cur@.len() - i,
        {
            let c = &cur[i];
            let change = match find_group(&base, &c.name) {
                Some(j) => {
                    proof {
                        let k = choose|k: int| first_named(bv, c.name@, k);
                        assert(k == j);
                    }
                    SiteChange::Changed {
                        baseline_count: base[j].count,
                        current_count: c.count,
                        baseline_bytes: base[j].total_bytes,
                        current_bytes: c.total_bytes,
                    }
                },
                None => {
                    assert(!exists|k: int| first_named(bv, c.name@, k));
                    SiteChange::Added { count: c.count, total_bytes: c.total_bytes }
                },
            };
            assert(change == change_of(cv[i as int], bv));
            let ghost before = entries_view(r@);
            r.push(ComparisonEntry { name: c.name.clone(), change });
            assert(entries_view(r@) =~= before.push((c.name@, change)));
            assert(cv.take(i + 1).map_values(|c: GroupView| (c.name, change_of(c, bv)))
                =~= cv.take(i as int).map_values(|c: GroupView| (c.name, change_of(c, bv))).push(
                (c.name@, change)));
            i = i + 1;
        }
        assert(cv.take(cv.len() as int) =~= cv);
        let ghost first_part = entries_view(r@);
        let mut j: usize = 0;
        while j < base.len()
            invariant
                j <= base@.len(),
                cv == groups_view(cur@),
                bv == groups_view(base@),
                entries_view(r@) == first_part + removed_entries(cv, bv.take(j as int)),
            decreases base@.len() - j,
        {
            let b = &base[j];
            assert(bv.take(j + 1).drop_last() =~= bv.take(j as int));
            assert(bv.take(j + 1).last() == b@);
            match find_group(&cur, &b.name) {
                Some(_) => {},
                None => {
                    let ghost before = entries_view(r@);
                    r.push(
                        ComparisonEntry {
                            name: b.name.clone(),
                            change: SiteChange::Removed { count: b.count, total_bytes: b.total_bytes },
                        },
                    );
                    assert(entries_view(r@) =~= before.push(
                        (b.name@, SiteChange::Removed { count: b.count, total_bytes: b.total_bytes }),
                    ));
                },
            }
            j = j + 1;
        }
        assert(bv.take(bv.len() as int) =~= bv);
        r
    }

    /// The lines of a comparison: `key: before → after ±N (±KB)` for keys in
    /// both, `[NEW]` and `[REMOVED]` for keys in one.
    pub fn render_comparison(entries: &Vec<ComparisonEntry>) -> (r: Vec<String>)
        ensures
            strings_view(r@) == entries_view(entries@).map_values(
                |e: (Seq<char>, SiteChange)| comparison_line(e.0, e.1),
            ),
    {
        let mut lines: Vec<String> = Vec::new();
        let ghost ev = entries_view(entries@);
        let mut i: usize = 0;
        while i < entries.len()
            invariant
                i <= entries@.len(),
                ev == entries_view(entries@),
                strings_view(lines@) == ev.take(i as int).map_values(
                    |e: (Seq<char>, SiteChange)| comparison_line(e.0, e.1),
                ),
            decreases entries@.len() - i,
        {
            let ghost before = strings_view(lines@);
            let line = comparison_text(&entries[i]);
            lines.push(line);
            assert(strings_view(lines@) =~= before.push(line@));
            assert(ev.take(i + 1).map_values(|e: (Seq<char>, SiteChange)| comparison_line(e.0, e.1))
                =~= ev.take(i as int).map_values(
                |e: (Seq<char>, SiteChange)| comparison_line(e.0, e.1),
            ).push(line@));
            i = i + 1;
        }
        assert(ev.take(ev.len() as int) =~= ev);
        lines
    }
}

} // verus!
