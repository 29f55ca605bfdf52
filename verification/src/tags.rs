//! A screen over the raw tag section of a protocol line, run before the
//! outside decoder sees it.
//!
//! The decoder trusts three tag values further than it checks them. An
//! emotes tag range whose end lies before its start, or at the integer
//! maximum, drives its index arithmetic out of range; a color tag value of
//! exactly seven bytes holding a multibyte character makes it cut a
//! character in half; a followers-only tag value above a sixtieth of the
//! signed integer maximum overflows its minutes-to-seconds conversion.
//! Lines shaped like that are rejected as malformed before the decoder is
//! called, so decoding never panics; every other line passes through
//! untouched. The scan mirrors the decoder's own reading of a line: tags
//! stand between a leading `@` and the first space, entries split at `;`,
//! the key ends at the first `=`, a later entry with the same key wins, and
//! tag values decode `\:` `\s` `\\` `\r` `\n` escapes.

use crate::badges::all_digits;
use crate::badges::digits_val;
use crate::badges::lemma_digits_val_take_le;
use vstd::prelude::*;
use vstd::string::StrSliceExecFns;

verus! {

/// The position of the first `c` in `v` within `[from, to)`, or `to` when
/// there is none.
pub open spec fn find_in(v: Seq<char>, c: char, from: int, to: int) -> int
    decreases to - from,
{
    if !(0 <= from < to <= v.len()) {
        to
    } else if v[from] == c {
        from
    } else {
        find_in(v, c, from + 1, to)
    }
}

/// [`find_in`] stays within its window.
pub proof fn lemma_find_in_bounds(v: Seq<char>, c: char, from: int, to: int)
    ensures
        0 <= from <= to <= v.len() ==> from <= find_in(v, c, from, to) <= to,
    decreases to - from,
{
    if 0 <= from < to <= v.len() && v[from] != c {
        lemma_find_in_bounds(v, c, from + 1, to);
    }
}

/// [`find_in`] is pinned down by a `c`-free range followed by `c` or the
/// window's end.
pub proof fn lemma_find_in_at(v: Seq<char>, c: char, from: int, to: int, j: int)
    requires
        0 <= from <= j <= to <= v.len(),
        forall|k: int| from <= k < j ==> v[k] != c,
        j == to || v[j] == c,
    ensures
        find_in(v, c, from, to) == j,
    decreases j - from,
{
    if from < j {
        lemma_find_in_at(v, c, from + 1, to, j);
    }
}

/// Find the first `c` in `[from, to)` of `v`, or `to` when there is none.
fn find_ch(v: &Vec<char>, c: char, from: usize, to: usize) -> (r: usize)
    requires
        from <= to <= v@.len(),
    ensures
        r == find_in(v@, c, from as int, to as int),
        from <= r <= to,
{
    let mut j: usize = from;
    while j < to && v[j] != c
        invariant
            from <= j <= to <= v@.len(),
            forall|k: int| from <= k < j ==> v@[k] != c,
        decreases to - j,
    {
        j = j + 1;
    }
    proof {
        lemma_find_in_at(v@, c, from as int, to as int, j as int);
    }
    j
}

/// The characters of `line`, as a vector.
fn chars_of(line: &str) -> (r: Vec<char>)
    ensures
        r@ == line@,
{
    let n = line.unicode_len();
    let mut r: Vec<char> = Vec::new();
    let mut i: usize = 0;
    while i < n
        invariant
            i <= n,
            n == line@.len(),
            r@ =~= line@.take(i as int),
        decreases n - i,
    {
        r.push(line.get_char(i));
        i = i + 1;
    }
    proof {
        assert(line@.take(n as int) =~= line@);
    }
    r
}

/// Copy the characters of `v` within `[from, to)`.
fn copy_range(v: &Vec<char>, from: usize, to: usize) -> (r: Vec<char>)
    requires
        from <= to <= v@.len(),
    ensures
        r@ == v@.subrange(from as int, to as int),
{
    let mut r: Vec<char> = Vec::new();
    let mut i: usize = from;
    while i < to
        invariant
            from <= i <= to <= v@.len(),
            r@ =~= v@.subrange(from as int, i as int),
        decreases to - i,
    {
        r.push(v[i]);
        proof {
            assert(r@ =~= v@.subrange(from as int, i + 1 as int));
        }
        i = i + 1;
    }
    proof {
        assert(r@ =~= v@.subrange(from as int, to as int));
    }
    r
}

/// Does the window `[from, to)` of `v` spell exactly `key`?
fn span_eq_str(v: &Vec<char>, from: usize, to: usize, key: &str) -> (r: bool)
    requires
        from <= to <= v@.len(),
    ensures
        r == (v@.subrange(from as int, to as int) == key@),
{
    let klen = key.unicode_len();
    if to - from != klen {
        proof {
            assert(v@.subrange(from as int, to as int).len() != key@.len());
        }
        return false;
    }
    let mut k: usize = 0;
    while k < klen
        invariant
            k <= klen,
            klen == key@.len(),
            from + klen == to,
            to <= v@.len(),
            forall|t: int| 0 <= t < k ==> v@[from + t] == key@[t],
        decreases klen - k,
    {
        let c = key.get_char(k);
        if v[from + k] != c {
            proof {
                assert(v@.subrange(from as int, to as int)[k as int] != key@[k as int]);
            }
            return false;
        }
        k = k + 1;
    }
    proof {
        assert(v@.subrange(from as int, to as int) =~= key@);
    }
    true
}

/// What one escaped character of a tag value decodes to.
pub open spec fn decoded_escape(c: char) -> char {
    if c == ':' {
        ';'
    } else if c == 's' {
        ' '
    } else if c == '\\' {
        '\\'
    } else if c == 'r' {
        '\r'
    } else if c == 'n' {
        '\n'
    } else {
        c
    }
}

/// A raw tag value with its escapes decoded: `\:` `\s` `\\` `\r` `\n` become
/// `;`, space, backslash, CR and LF; a backslash before any other character
/// is dropped, and a dangling final backslash vanishes.
pub open spec fn spec_decode_tag_value(raw: Seq<char>) -> Seq<char>
    decreases raw.len(),
{
    if raw.len() == 0 {
        Seq::<char>::empty()
    } else if raw[0] == '\\' {
        if raw.len() == 1 {
            Seq::<char>::empty()
        } else {
            seq![decoded_escape(raw[1])] + spec_decode_tag_value(raw.skip(2))
        }
    } else {
        seq![raw[0]] + spec_decode_tag_value(raw.skip(1))
    }
}

/// Decode a raw tag value.
fn decode_tag_value(raw: &Vec<char>) -> (r: Vec<char>)
    ensures
        r@ == spec_decode_tag_value(raw@),
{
    let n = raw.len();
    let mut out: Vec<char> = Vec::new();
    let mut i: usize = 0;
    proof {
        assert(raw@.skip(0) =~= raw@);
        assert(Seq::<char>::empty() + spec_decode_tag_value(raw@) =~= spec_decode_tag_value(raw@));
    }
    while i < n
        invariant
            i <= n,
            n == raw@.len(),
            spec_decode_tag_value(raw@) == out@ + spec_decode_tag_value(raw@.skip(i as int)),
        decreases n - i,
    {
        let ghost s = raw@.skip(i as int);
        let c = raw[i];
        proof {
            assert(s[0] == raw@[i as int]);
        }
        if c == '\\' {
            if i + 1 >= n {
                proof {
                    assert(s.len() == 1);
                    assert(spec_decode_tag_value(s) =~= Seq::<char>::empty());
                    assert(raw@.skip(n as int) =~= Seq::<char>::empty());
                    assert(out@ + Seq::<char>::empty() =~= out@);
                }
                i = n;
            } else {
                let nx = raw[i + 1];
                let d = if nx == ':' {
                    ';'
                } else if nx == 's' {
                    ' '
                } else if nx == '\\' {
                    '\\'
                } else if nx == 'r' {
                    '\r'
                } else if nx == 'n' {
                    '\n'
                } else {
                    nx
                };
                let ghost pre = out@;
                out.push(d);
                proof {
                    assert(s[1] == raw@[i + 1 as int]);
                    assert(s.skip(2) =~= raw@.skip(i + 2 as int));
                    assert(d == decoded_escape(s[1]));
                    assert(out@ =~= pre + seq![d]);
                    assert(pre + (seq![d] + spec_decode_tag_value(s.skip(2))) =~= out@
                        + spec_decode_tag_value(raw@.skip(i + 2 as int)));
                }
                i = i + 2;
            }
        } else {
            let ghost pre = out@;
            out.push(c);
            proof {
                assert(s.skip(1) =~= raw@.skip(i + 1 as int));
                assert(out@ =~= pre + seq![c]);
                assert(pre + (seq![c] + spec_decode_tag_value(s.skip(1))) =~= out@
                    + spec_decode_tag_value(raw@.skip(i + 1 as int)));
            }
            i = i + 1;
        }
    }
    proof {
        assert(raw@.skip(n as int) =~= Seq::<char>::empty());
        assert(out@ + Seq::<char>::empty() =~= out@);
    }
    out
}

/// The value the entry `[from, to)` of a tag section carries for `key`: the
/// text after the first `=`, the empty value when the entry is the bare key,
/// and nothing when the key differs.
pub open spec fn entry_value(v: Seq<char>, from: int, to: int, key: Seq<char>) -> Option<
    Seq<char>,
> {
    if !(0 <= from <= to <= v.len()) {
        None
    } else {
        let e = find_in(v, '=', from, to);
        if e >= to {
            if v.subrange(from, to) == key {
                Some(Seq::<char>::empty())
            } else {
                None
            }
        } else {
            if v.subrange(from, e) == key {
                Some(v.subrange(e + 1, to))
            } else {
                None
            }
        }
    }
}

#[via_fn]
proof fn last_tag_value_decreases(v: Seq<char>, from: int, to: int, key: Seq<char>) {
    lemma_find_in_bounds(v, ';', from, to);
}

/// The raw value of the last entry for `key` in the `;`-separated tag
/// section window `[from, to)`: a later entry with the same key overwrites
/// an earlier one, exactly as the decoder's tag map does.
pub open spec fn last_tag_value(v: Seq<char>, from: int, to: int, key: Seq<char>) -> Option<
    Seq<char>,
>
    decreases to - from,
    via last_tag_value_decreases
{
    if !(0 <= from <= to <= v.len()) {
        None
    } else {
        let j = find_in(v, ';', from, to);
        if j >= to {
            entry_value(v, from, to, key)
        } else {
            match last_tag_value(v, j + 1, to, key) {
                Some(val) => Some(val),
                None => entry_value(v, from, j, key),
            }
        }
    }
}

/// The raw value of the last `key` tag of a protocol line, when the line has
/// a tag section at all.
pub open spec fn tag_value_of(line: Seq<char>, key: Seq<char>) -> Option<Seq<char>> {
    if line.len() == 0 || line[0] != '@' {
        None
    } else {
        let sp = find_in(line, ' ', 0, line.len() as int);
        if sp >= line.len() {
            None
        } else {
            last_tag_value(line, 1, sp, key)
        }
    }
}

/// The window of the entry value, mirroring [`entry_value`].
fn entry_span(v: &Vec<char>, from: usize, to: usize, key: &str) -> (r: Option<(usize, usize)>)
    requires
        from <= to <= v@.len(),
    ensures
        match r {
            Some(span) => span.0 <= span.1 <= v@.len() && entry_value(
                v@,
                from as int,
                to as int,
                key@,
            ) == Some(v@.subrange(span.0 as int, span.1 as int)),
            None => entry_value(v@, from as int, to as int, key@) is None,
        },
{
    let e = find_ch(v, '=', from, to);
    if e >= to {
        if span_eq_str(v, from, to, key) {
            proof {
                assert(v@.subrange(to as int, to as int) =~= Seq::<char>::empty());
            }
            Some((to, to))
        } else {
            None
        }
    } else {
        if span_eq_str(v, from, e, key) {
            Some((e + 1, to))
        } else {
            None
        }
    }
}

/// The window of the last entry value for `key`, mirroring
/// [`last_tag_value`].
fn last_tag_span(v: &Vec<char>, from: usize, to: usize, key: &str) -> (r: Option<(usize, usize)>)
    requires
        from <= to <= v@.len(),
    ensures
        match r {
            Some(span) => span.0 <= span.1 <= v@.len() && last_tag_value(
                v@,
                from as int,
                to as int,
                key@,
            ) == Some(v@.subrange(span.0 as int, span.1 as int)),
            None => last_tag_value(v@, from as int, to as int, key@) is None,
        },
    decreases to - from,
{
    let j = find_ch(v, ';', from, to);
    if j >= to {
        entry_span(v, from, to, key)
    } else {
        match last_tag_span(v, j + 1, to, key) {
            Some(span) => Some(span),
            None => entry_span(v, from, j, key),
        }
    }
}

/// `s` with a single leading `+` sign removed, if it has one: the shape an
/// unsigned decimal parse accepts.
pub open spec fn plus_digits_part(s: Seq<char>) -> Seq<char> {
    if s.len() > 0 && s[0] == '+' {
        s.skip(1)
    } else {
        s
    }
}

/// What parsing `s` as a 64-bit unsigned decimal integer yields: an optional
/// leading `+` followed by one or more ASCII digits, rejected on any other
/// character or when the value does not fit.
pub open spec fn spec_parse_u64(s: Seq<char>) -> Option<u64> {
    if plus_digits_part(s).len() == 0 || !all_digits(plus_digits_part(s)) {
        None
    } else if digits_val(plus_digits_part(s)) <= 0xffff_ffff_ffff_ffff {
        Some(digits_val(plus_digits_part(s)) as u64)
    } else {
        None
    }
}

/// Parse the window `[from, to)` of `v` as a 64-bit unsigned decimal
/// integer, as [`spec_parse_u64`] describes.
fn parse_u64_in(v: &Vec<char>, from: usize, to: usize) -> (r: Option<u64>)
    requires
        from <= to <= v@.len(),
    ensures
        r == spec_parse_u64(v@.subrange(from as int, to as int)),
{
    let ghost s = v@.subrange(from as int, to as int);
    if from == to {
        return None;
    }
    let start: usize = if v[from] == '+' {
        from + 1
    } else {
        from
    };
    let ghost part = plus_digits_part(s);
    proof {
        assert(part =~= v@.subrange(start as int, to as int));
    }
    if start == to {
        return None;
    }
    let mut i: usize = start;
    let mut acc: u128 = 0;
    while i < to
        invariant
            start <= i <= to <= v@.len(),
            from <= start,
            s == v@.subrange(from as int, to as int),
            part == plus_digits_part(s),
            part =~= v@.subrange(start as int, to as int),
            acc == digits_val(v@.subrange(start as int, i as int)),
            acc <= 0xffff_ffff_ffff_ffff,
            all_digits(v@.subrange(start as int, i as int)),
        decreases to - i,
    {
        let c = v[i];
        let u = c as u32;
        if !(48 <= u && u <= 57) {
            proof {
                assert(part.len() == to - start);
                assert(part[i - start] == v@[i as int]);
                assert(!all_digits(part));
            }
            return None;
        }
        let d: u128 = (u - 48) as u128;
        acc = acc * 10 + d;
        proof {
            let p = v@.subrange(start as int, i + 1 as int);
            assert(p.drop_last() =~= v@.subrange(start as int, i as int));
            assert(p.last() == v@[i as int]);
        }
        i = i + 1;
        if acc > 0xffff_ffff_ffff_ffff {
            proof {
                lemma_digits_val_take_le(part, i - start);
                assert(part.take(i - start) =~= v@.subrange(start as int, i as int));
                assert(digits_val(part) >= acc);
            }
            return None;
        }
    }
    proof {
        assert(v@.subrange(start as int, to as int) =~= part);
    }
    Some(acc as u64)
}

/// Is one emote index range harmless to the decoder? A range whose two
/// sides both parse as unsigned integers must not end at or above the
/// machine's index maximum, nor more than one before its start; any range
/// the decoder cannot even parse makes it stop with an error before the
/// arithmetic.
pub open spec fn range_safe_at(v: Seq<char>, from: int, to: int) -> bool {
    if !(0 <= from <= to <= v.len()) {
        true
    } else {
        let d = find_in(v, '-', from, to);
        if d >= to {
            true
        } else {
            match (spec_parse_u64(v.subrange(from, d)), spec_parse_u64(v.subrange(d + 1, to))) {
                (Some(start), Some(end)) => end < usize::MAX as u64 && end + 1 >= start,
                _ => true,
            }
        }
    }
}

fn range_safe(v: &Vec<char>, from: usize, to: usize) -> (r: bool)
    requires
        from <= to <= v@.len(),
    ensures
        r == range_safe_at(v@, from as int, to as int),
{
    let d = find_ch(v, '-', from, to);
    if d >= to {
        return true;
    }
    let sv = parse_u64_in(v, from, d);
    let ev = parse_u64_in(v, d + 1, to);
    match (sv, ev) {
        (Some(s), Some(e)) => e < usize::MAX as u64 && e + 1 >= s,
        _ => true,
    }
}

#[via_fn]
proof fn ranges_safe_at_decreases(v: Seq<char>, from: int, to: int) {
    lemma_find_in_bounds(v, ',', from, to);
}

/// Are all `,`-separated index ranges in the window harmless?
pub open spec fn ranges_safe_at(v: Seq<char>, from: int, to: int) -> bool
    decreases to - from,
    via ranges_safe_at_decreases
{
    if !(0 <= from <= to <= v.len()) {
        true
    } else {
        let j = find_in(v, ',', from, to);
        if j >= to {
            range_safe_at(v, from, to)
        } else {
            range_safe_at(v, from, j) && ranges_safe_at(v, j + 1, to)
        }
    }
}

fn ranges_safe(v: &Vec<char>, from: usize, to: usize) -> (r: bool)
    requires
        from <= to <= v@.len(),
    ensures
        r == ranges_safe_at(v@, from as int, to as int),
    decreases to - from,
{
    let j = find_ch(v, ',', from, to);
    if j >= to {
        range_safe(v, from, to)
    } else {
        if !range_safe(v, from, j) {
            false
        } else {
            ranges_safe(v, j + 1, to)
        }
    }
}

/// Is one `/`-separated emote segment harmless? The part after the first
/// `:` carries the index ranges; a segment without a `:` stops the decoder
/// with an error first.
pub open spec fn segment_safe_at(v: Seq<char>, from: int, to: int) -> bool {
    if !(0 <= from <= to <= v.len()) {
        true
    } else {
        let c = find_in(v, ':', from, to);
        if c >= to {
            true
        } else {
            ranges_safe_at(v, c + 1, to)
        }
    }
}

fn segment_safe(v: &Vec<char>, from: usize, to: usize) -> (r: bool)
    requires
        from <= to <= v@.len(),
    ensures
        r == segment_safe_at(v@, from as int, to as int),
{
    let c = find_ch(v, ':', from, to);
    if c >= to {
        true
    } else {
        ranges_safe(v, c + 1, to)
    }
}

#[via_fn]
proof fn segments_safe_at_decreases(v: Seq<char>, from: int, to: int) {
    lemma_find_in_bounds(v, '/', from, to);
}

/// Are all `/`-separated emote segments in the window harmless?
pub open spec fn segments_safe_at(v: Seq<char>, from: int, to: int) -> bool
    decreases to - from,
    via segments_safe_at_decreases
{
    if !(0 <= from <= to <= v.len()) {
        true
    } else {
        let j = find_in(v, '/', from, to);
        if j >= to {
            segment_safe_at(v, from, to)
        } else {
            segment_safe_at(v, from, j) && segments_safe_at(v, j + 1, to)
        }
    }
}

fn segments_safe(v: &Vec<char>, from: usize, to: usize) -> (r: bool)
    requires
        from <= to <= v@.len(),
    ensures
        r == segments_safe_at(v@, from as int, to as int),
    decreases to - from,
{
    let j = find_ch(v, '/', from, to);
    if j >= to {
        segment_safe(v, from, to)
    } else {
        if !segment_safe(v, from, j) {
            false
        } else {
            segments_safe(v, j + 1, to)
        }
    }
}

/// Is a decoded emotes tag value harmless to the decoder's index
/// arithmetic? The empty value is returned early as no emotes at all.
pub open spec fn emotes_value_safe(v: Seq<char>) -> bool {
    v.len() == 0 || segments_safe_at(v, 0, v.len() as int)
}

fn emotes_value_check(v: &Vec<char>) -> (r: bool)
    ensures
        r == emotes_value_safe(v@),
{
    if v.len() == 0 {
        true
    } else {
        segments_safe(v, 0, v.len())
    }
}

/// The number of bytes a character occupies in UTF-8.
pub open spec fn char_width(c: char) -> int {
    if (c as u32) < 0x80 {
        1
    } else if (c as u32) < 0x800 {
        2
    } else if (c as u32) < 0x10000 {
        3
    } else {
        4
    }
}

/// The number of bytes `v` occupies in UTF-8.
pub open spec fn utf8_len(v: Seq<char>) -> int
    decreases v.len(),
{
    if v.len() == 0 {
        0
    } else {
        utf8_len(v.drop_last()) + char_width(v.last())
    }
}

/// Taking characters away never grows the encoded length.
proof fn lemma_utf8_len_take_le(v: Seq<char>, i: int)
    requires
        0 <= i <= v.len(),
    ensures
        utf8_len(v.take(i)) <= utf8_len(v),
    decreases v.len() - i,
{
    if i < v.len() {
        let t = v.take(i + 1);
        assert(t.drop_last() =~= v.take(i));
        assert(utf8_len(v.take(i)) <= utf8_len(t));
        lemma_utf8_len_take_le(v, i + 1);
        assert(v.take(v.len() as int) =~= v);
    } else {
        assert(v.take(i) =~= v);
    }
}

/// Is a decoded color tag value harmless to the decoder's byte slicing?
/// The decoder cuts a seven-byte value at bytes one, three and five, which
/// is sound for one-byte characters; a value of any other byte length is
/// rejected by its own length check first.
pub open spec fn color_value_safe(v: Seq<char>) -> bool {
    v.len() == 0 || (forall|i: int| 0 <= i < v.len() ==> (v[i] as u32) < 0x80) || utf8_len(v) != 7
}

fn color_value_check(v: &Vec<char>) -> (r: bool)
    ensures
        r == color_value_safe(v@),
{
    let n = v.len();
    if n == 0 {
        return true;
    }
    let mut i: usize = 0;
    while i < n && (v[i] as u32) < 0x80
        invariant
            i <= n,
            n == v@.len(),
            forall|k: int| 0 <= k < i ==> (v@[k] as u32) < 0x80,
        decreases n - i,
    {
        i = i + 1;
    }
    if i == n {
        return true;
    }
    let mut j: usize = 0;
    let mut total: u64 = 0;
    while j < n
        invariant
            j <= n,
            n == v@.len(),
            total == utf8_len(v@.take(j as int)),
            total <= 7,
        decreases n - j,
    {
        let u = v[j] as u32;
        let w: u64 = if u < 0x80 {
            1
        } else if u < 0x800 {
            2
        } else if u < 0x10000 {
            3
        } else {
            4
        };
        proof {
            let t = v@.take(j + 1 as int);
            assert(t.drop_last() =~= v@.take(j as int));
            assert(t.last() == v@[j as int]);
        }
        total = total + w;
        j = j + 1;
        if total > 7 {
            proof {
                lemma_utf8_len_take_le(v@, j as int);
                assert(utf8_len(v@) != 7);
            }
            return true;
        }
    }
    proof {
        assert(v@.take(n as int) =~= v@);
    }
    total != 7
}

/// Is a decoded followers-only tag value harmless to the decoder's
/// minutes-to-seconds conversion? A non-negative value it can parse as a
/// signed 64-bit integer is multiplied by sixty, so it must not exceed a
/// sixtieth of the signed maximum; a negative value takes the disabled
/// branch, and a value too large even for the parse stops the decoder with
/// an error first.
pub open spec fn followers_value_safe(v: Seq<char>) -> bool {
    match spec_parse_u64(v) {
        Some(n) => !(153722867280912930 < n && n <= 0x7fff_ffff_ffff_ffff),
        None => true,
    }
}

fn followers_value_check(v: &Vec<char>) -> (r: bool)
    ensures
        r == followers_value_safe(v@),
{
    proof {
        assert(v@.subrange(0, v@.len() as int) =~= v@);
    }
    match parse_u64_in(v, 0, v.len()) {
        Some(n) => !(153722867280912930u64 < n && n <= 0x7fff_ffff_ffff_ffffu64),
        None => true,
    }
}

/// Does this line steer clear of the decoder's three panic-prone tag
/// shapes? Lines without a tag section, or without the three tags, always
/// do.
pub open spec fn safe_to_decode(line: Seq<char>) -> bool {
    &&& match tag_value_of(line, "emotes"@) {
        Some(raw) => emotes_value_safe(spec_decode_tag_value(raw)),
        None => true,
    }
    &&& match tag_value_of(line, "color"@) {
        Some(raw) => color_value_safe(spec_decode_tag_value(raw)),
        None => true,
    }
    &&& match tag_value_of(line, "followers-only"@) {
        Some(raw) => followers_value_safe(spec_decode_tag_value(raw)),
        None => true,
    }
}

/// Check a line against [`safe_to_decode`] before handing it to the
/// decoder.
pub(crate) fn check_safe_to_decode(line: &str) -> (r: bool)
    ensures
        r == safe_to_decode(line@),
{
    let chars = chars_of(line);
    let n = chars.len();
    if n == 0 {
        return true;
    }
    if chars[0] != '@' {
        return true;
    }
    let sp = find_ch(&chars, ' ', 0, n);
    if sp >= n {
        return true;
    }
    proof {
        assert(chars@[0] != ' ');
        lemma_find_in_bounds(chars@, ' ', 1, n as int);
        assert(sp >= 1);
    }
    let emotes_ok = match last_tag_span(&chars, 1, sp, "emotes") {
        Some((a, b)) => {
            let raw = copy_range(&chars, a, b);
            let decoded = decode_tag_value(&raw);
            emotes_value_check(&decoded)
        },
        None => true,
    };
    if !emotes_ok {
        return false;
    }
    let color_ok = match last_tag_span(&chars, 1, sp, "color") {
        Some((a, b)) => {
            let raw = copy_range(&chars, a, b);
            let decoded = decode_tag_value(&raw);
            color_value_check(&decoded)
        },
        None => true,
    };
    if !color_ok {
        return false;
    }
    match last_tag_span(&chars, 1, sp, "followers-only") {
        Some((a, b)) => {
            let raw = copy_range(&chars, a, b);
            let decoded = decode_tag_value(&raw);
            followers_value_check(&decoded)
        },
        None => true,
    }
}

} // verus!
