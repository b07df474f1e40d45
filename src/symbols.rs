//! Symbol resolution: turns a captured stack into the cleaned frame strings
//! that identify an allocation site.

use vstd::prelude::*;
use crate::text::{
    chars_of, contains_chars, contains_seq, decimal, lemma_find_last_found, push_decimal, push_str,
    rfind, rfind_seq, slice_chars, string_of,
};

verus! {

/// Most frames kept for one allocation site.
pub const MAX_FRAMES: usize = 10;

/// One resolved symbol of a stack frame, innermost first.
pub struct SymbolInfo {
    pub name: Option<String>,
    pub filename: Option<String>,
    pub lineno: Option<u32>,
}

/// An ASCII hexadecimal digit.
pub open spec fn is_hex(c: char) -> bool {
    let u = c as u32;
    (48 <= u <= 57) || (97 <= u <= 102) || (65 <= u <= 70)
}

/// `name` without a trailing `::h<hex>` disambiguation suffix.
pub open spec fn without_hash(name: Seq<char>) -> Seq<char> {
    let pos = rfind(name, "::h"@);
    if pos >= 0 && (forall|k: int| pos + "::h"@.len() <= k < name.len() ==> is_hex(name[k])) {
        name.subrange(0, pos)
    } else {
        name
    }
}

/// `<` and `>` become the single angle quotation marks.
pub open spec fn angle_free(c: char) -> char {
    if c == '<' {
        '\u{2039}'
    } else if c == '>' {
        '\u{203a}'
    } else {
        c
    }
}

/// The cleaned form of a symbol name.
pub open spec fn cleaned(name: Seq<char>) -> Seq<char> {
    without_hash(name).map_values(|c: char| angle_free(c))
}

fn is_hex_char(c: char) -> (r: bool)
    ensures
        r == is_hex(c),
{
    let u = c as u32;
    (48 <= u && u <= 57) || (97 <= u && u <= 102) || (65 <= u && u <= 70)
}

fn strip_hash(name: &Vec<char>) -> (r: Vec<char>)
    ensures
        r@ == without_hash(name@),
{
    let marker = chars_of("::h");
    let n = name.len();
    match rfind_seq(name, &marker) {
        None => slice_chars(name, 0, name.len()),
        Some(pos) => {
            assert(pos + marker@.len() <= name@.len()) by {
                lemma_find_last_found(name@, marker@, name@.len() - marker@.len());
            }
            let mut k = pos + marker.len();
            let mut all_hex = true;
            while k < n
                invariant
                    n == name@.len(),
                    pos + marker@.len() <= k <= name@.len(),
                    all_hex == (forall|m: int| pos + marker@.len() <= m < k ==> is_hex(name@[m])),
                decreases name@.len() - k,
            {
                all_hex = all_hex && is_hex_char(name[k]);
                k = k + 1;
            }
            if all_hex {
                slice_chars(name, 0, pos)
            } else {
                slice_chars(name, 0, name.len())
            }
        },
    }
}

/// Removes a compiler-generated hash suffix and replaces generic angle brackets,
/// so that one call path keeps one name across builds.
pub fn clean_symbol_name(name: &str) -> (r: String)
    ensures
        r@ == cleaned(name@),
{
    let cs = chars_of(name);
    let base = strip_hash(&cs);
    let mut out: Vec<char> = Vec::new();
    let mut i: usize = 0;
    while i < base.len()
        invariant
            i <= base@.len(),
            out@ == base@.take(i as int).map_values(|c: char| angle_free(c)),
        decreases base@.len() - i,
    {
        let c = base[i];
        let d = if c == '<' {
            '\u{2039}'
        } else if c == '>' {
            '\u{203a}'
        } else {
            c
        };
        out.push(d);
        assert(base@.take(i + 1).map_values(|c: char| angle_free(c)) =~= base@.take(
            i as int,
        ).map_values(|c: char| angle_free(c)).push(angle_free(c)));
        i = i + 1;
    }
    assert(base@.take(base@.len() as int) =~= base@);
    string_of(&out)
}


/// A frame name that belongs to the allocator, the profiler or the stack
/// capture facility.
pub open spec fn is_internal(name: Seq<char>) -> bool {
    contains_seq(name, "alloc::"@) || contains_seq(name, "ProfilingAllocator"@) || contains_seq(
        name,
        "AllocationProfiler"@,
    ) || contains_seq(name, "backtrace::"@)
}

/// The text of a kept frame: `name (file:line)` when the location is known.
pub open spec fn frame_text(name: Seq<char>, file: Option<Seq<char>>, line: Option<u32>) -> Seq<
    char,
> {
    match (file, line) {
        (Some(f), Some(l)) => cleaned(name) + " ("@ + f + ":"@ + decimal(l as nat) + ")"@,
        _ => cleaned(name),
    }
}

/// The frame text of a symbol that has a name.
pub open spec fn symbol_text(s: SymbolInfo) -> Seq<char> {
    frame_text(
        s.name->Some_0@,
        match s.filename {
            Some(f) => Some(f@),
            None => None,
        },
        s.lineno,
    )
}

/// The frames kept from `syms`: symbols without a name are passed over, leading
/// internal frames are skipped, and once user code is reached (`started`) every
/// named frame is kept.
pub open spec fn user_frames(syms: Seq<SymbolInfo>, started: bool) -> Seq<Seq<char>>
    decreases syms.len(),
{
    if syms.len() == 0 {
        seq![]
    } else {
        let s = syms[0];
        let rest = syms.drop_first();
        match s.name {
            None => user_frames(rest, started),
            Some(n) => if !started && is_internal(n@) {
                user_frames(rest, false)
            } else {
                seq![symbol_text(s)] + user_frames(rest, true)
            },
        }
    }
}

/// At most the first `MAX_FRAMES` of `frames`.
pub open spec fn capped(frames: Seq<Seq<char>>) -> Seq<Seq<char>> {
    if frames.len() <= MAX_FRAMES {
        frames
    } else {
        frames.take(MAX_FRAMES as int)
    }
}

/// The views of a vector of strings.
pub open spec fn strings_view(v: Seq<String>) -> Seq<Seq<char>> {
    v.map_values(|f: String| f@)
}

/// The frame strings of a resolved stack.
pub open spec fn extracted(syms: Seq<SymbolInfo>) -> Seq<Seq<char>> {
    capped(user_frames(syms, false))
}

fn is_internal_name(name: &Vec<char>) -> (r: bool)
    ensures
        r == is_internal(name@),
{
    contains_chars(name, &chars_of("alloc::")) || contains_chars(
        name,
        &chars_of("ProfilingAllocator"),
    ) || contains_chars(name, &chars_of("AllocationProfiler")) || contains_chars(
        name,
        &chars_of("backtrace::"),
    )
}

fn render_frame(s: &SymbolInfo, name: &String) -> (r: String)
    requires
        s.name == Some(*name),
    ensures
        r@ == symbol_text(*s),
{
    let clean = clean_symbol_name(name.as_str());
    match (&s.filename, s.lineno) {
        (Some(f), Some(l)) => {
            let mut out = chars_of(clean.as_str());
            push_str(&mut out, " (");
            push_str(&mut out, f.as_str());
            push_str(&mut out, ":");
            push_decimal(&mut out, l as u64);
            push_str(&mut out, ")");
            string_of(&out)
        },
        _ => clean,
    }
}

/// Turns resolved symbols (innermost first) into the frame strings of an
/// allocation site: leading internal frames are skipped, and from the first
/// user frame on at most `MAX_FRAMES` named frames are kept.
pub fn extract_frames(syms: &Vec<SymbolInfo>) -> (r: Vec<String>)
    ensures
        strings_view(r@) == extracted(syms@),
        r@.len() <= MAX_FRAMES,
{
    let mut r: Vec<String> = Vec::new();
    let mut started = false;
    let mut i: usize = 0;
    assert(syms@.subrange(0, syms@.len() as int) =~= syms@);
    while i < syms.len()
        invariant
            i <= syms@.len(),
            r@.len() <= MAX_FRAMES,
            extracted(syms@) == capped(
                strings_view(r@) + user_frames(syms@.subrange(i as int, syms@.len() as int), started),
            ),
        decreases syms@.len() - i,
    {
        let ghost rest = syms@.subrange(i + 1, syms@.len() as int);
        assert(syms@.subrange(i as int, syms@.len() as int).drop_first() =~= rest);
        let s = &syms[i];
        match &s.name {
            None => {},
            Some(n) => {
                let internal = is_internal_name(&chars_of(n.as_str()));
                if !started && internal {
                } else {
                    let ghost before = strings_view(r@);
                    if r.len() < MAX_FRAMES {
                        let f = render_frame(s, n);
                        r.push(f);
                        assert(strings_view(r@) =~= before.push(f@));
                        assert(before + (seq![f@] + user_frames(rest, true)) =~= strings_view(r@)
                            + user_frames(rest, true));
                    } else {
                        assert(capped(before + (seq![symbol_text(*s)] + user_frames(rest, true)))
                            =~= before);
                        assert(capped(before + user_frames(rest, true)) =~= before);
                    }
                    started = true;
                }
            },
        }
        i = i + 1;
    }
    assert(syms@.subrange(i as int, syms@.len() as int) =~= Seq::<SymbolInfo>::empty());
    assert(strings_view(r@) + Seq::<Seq<char>>::empty() =~= strings_view(r@));
    r
}

/// Relies on backtrace::Backtrace, an opaque captured stack.
#[verifier::external_type_specification]
#[verifier::external_body]
pub struct ExBacktrace(backtrace::Backtrace);

/// Relies on backtrace::Backtrace::resolve: looks up the names, files and lines
/// of the captured addresses; what it finds depends on the running binary.
#[verifier::external_body]
pub(crate) fn resolve_backtrace(bt: &mut backtrace::Backtrace) {
    bt.resolve();
}

/// Relies on backtrace::Backtrace::frames and BacktraceFrame::symbols: lists the
/// resolved symbols of every frame, innermost first, as plain values.
#[verifier::external_body]
pub(crate) fn backtrace_symbols(bt: &backtrace::Backtrace) -> Vec<SymbolInfo> {
    let mut out = Vec::new();
    for frame in bt.frames() {
        for symbol in frame.symbols() {
            out.push(SymbolInfo {
                name: symbol.name().map(|n| n.to_string()),
                filename: symbol.filename().map(|f| f.display().to_string()),
                lineno: symbol.lineno(),
            });
        }
    }
    out
}

} // verus!
