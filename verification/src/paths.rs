use vstd::prelude::*;
use vstd::string::*;
use vstd::utf8::*;

verus! {

/// The byte value of the path separator `/`.
pub const SLASH: u8 = 47;

/// The byte value of the extension separator `.`.
pub const DOT: u8 = 46;

/// Length of `b` once trailing path separators are removed.
pub open spec fn trimmed_len(b: Seq<u8>) -> int
    decreases b.len(),
{
    if b.len() > 0 && b.last() == SLASH {
        trimmed_len(b.drop_last())
    } else {
        b.len() as int
    }
}

/// Start of the final path component of `b.subrange(0, end)`: the position
/// right after the last separator before `end`, or 0 when there is none.
pub open spec fn component_start(b: Seq<u8>, end: int) -> int
    decreases end,
{
    if end <= 0 {
        0
    } else if b[end - 1] == SLASH {
        end
    } else {
        component_start(b, end - 1)
    }
}

/// Index of the last `.` strictly between `start` and `end` (exclusive on
/// both sides for `start`, so a dot leading the component does not count),
/// or -1 when there is none.
pub open spec fn last_dot_after(b: Seq<u8>, start: int, end: int) -> int
    decreases end,
{
    if end <= 0 || end <= start + 1 {
        -1
    } else if b[end - 1] == DOT {
        end - 1
    } else {
        last_dot_after(b, start, end - 1)
    }
}

/// Start of the file stem of the path bytes `b`: the start of the final
/// component, ignoring trailing separators.
pub open spec fn stem_start(b: Seq<u8>) -> int {
    component_start(b, trimmed_len(b))
}

/// End of the file stem of the path bytes `b`: the last dot of the final
/// component when one follows its first byte, else the component's end.
pub open spec fn stem_end(b: Seq<u8>) -> int {
    let d = last_dot_after(b, stem_start(b), trimmed_len(b));
    if d >= 0 {
        d
    } else {
        trimmed_len(b)
    }
}

/// The file stem of the path bytes `b`: its final component (ignoring
/// trailing separators) without the extension.
pub open spec fn spec_file_stem(b: Seq<u8>) -> Seq<u8> {
    b.subrange(stem_start(b), stem_end(b))
}

/// True when the path bytes `b` have a file stem: the final component
/// (ignoring trailing separators) is nonempty and is neither `.` nor `..`.
pub open spec fn has_file_stem(b: Seq<u8>) -> bool {
    let e = trimmed_len(b);
    let s = stem_start(b);
    &&& s < e
    &&& !(e - s == 1 && b[s] == DOT)
    &&& !(e - s == 2 && b[s] == DOT && b[s + 1] == DOT)
}

proof fn lemma_component_start_slash(b: Seq<u8>, end: int)
    requires
        0 < component_start(b, end),
    ensures
        b[component_start(b, end) - 1] == SLASH,
    decreases end,
{
    if end > 0 && b[end - 1] != SLASH {
        lemma_component_start_slash(b, end - 1);
    }
}

/// In a valid UTF-8 byte sequence, a position holding an ASCII byte, or the
/// end of the sequence, is a character boundary.
proof fn lemma_ascii_is_boundary(b: Seq<u8>, i: int)
    requires
        valid_utf8(b),
        0 <= i <= b.len(),
        i < b.len() ==> b[i] < 0x80,
    ensures
        is_char_boundary(b, i),
{
    if i == b.len() {
        is_char_boundary_start_end_of_seq(b);
    } else {
        is_char_boundary_iff_not_is_continuation_byte(b, i);
    }
}

/// In a valid UTF-8 byte sequence, the position right after an ASCII byte is
/// a character boundary: an ASCII byte encodes a whole scalar by itself, so
/// the next byte starts a fresh scalar.
proof fn lemma_after_ascii_is_boundary(b: Seq<u8>, i: int)
    requires
        valid_utf8(b),
        0 < i <= b.len(),
        b[i - 1] < 0x80,
    ensures
        is_char_boundary(b, i),
{
    lemma_ascii_is_boundary(b, i - 1);
    valid_utf8_split(b, i - 1);
    let tail = b.subrange(i - 1, b.len() as int);
    assert(tail[0] == b[i - 1]);
    assert(valid_first_scalar(tail));
    assert(length_of_first_scalar(tail) == 1);
    if i == b.len() {
        is_char_boundary_start_end_of_seq(b);
    } else {
        let rest = b.subrange(i, b.len() as int);
        assert(pop_first_scalar(tail) =~= rest);
        assert(valid_utf8(rest));
        assert(rest[0] == b[i]);
        if is_continuation_byte(b[i]) {
            assert(!valid_leading_and_continuation_bytes_first_codepoint(rest));
            assert(false);
        }
        is_char_boundary_iff_not_is_continuation_byte(b, i);
    }
}

/// Length of `bytes` once trailing separators are removed, as
/// `trimmed_len` gives it; everything past it is a separator.
fn trim_end(bytes: &[u8]) -> (e: usize)
    ensures
        e as int == trimmed_len(bytes@),
        e <= bytes@.len(),
        forall|j: int| e <= j < bytes@.len() ==> bytes@[j] == SLASH,
{
    proof {
        assert(bytes@.subrange(0, bytes@.len() as int) =~= bytes@);
    }
    let n: usize = bytes.len();
    let mut e: usize = n;
    while e > 0 && bytes[e - 1] == SLASH
        invariant
            0 <= e <= n,
            n == bytes@.len(),
            trimmed_len(bytes@) == trimmed_len(bytes@.subrange(0, e as int)),
            forall|j: int| e <= j < n ==> bytes@[j] == SLASH,
        decreases e,
    {
        proof {
            assert(bytes@.subrange(0, e as int).last() == bytes@[e - 1]);
            assert(bytes@.subrange(0, e as int).drop_last() =~= bytes@.subrange(0, e - 1));
        }
        e = e - 1;
    }
    proof {
        if e > 0 {
            assert(bytes@.subrange(0, e as int).last() == bytes@[e - 1]);
        }
        assert(trimmed_len(bytes@.subrange(0, e as int)) == e as int);
    }
    e
}

/// Start of the final component of `bytes.take(e)`, as `component_start`
/// gives it.
fn find_component_start(bytes: &[u8], e: usize) -> (s: usize)
    requires
        e <= bytes@.len(),
    ensures
        s as int == component_start(bytes@, e as int),
        s <= e,
{
    let mut s: usize = e;
    while s > 0 && bytes[s - 1] != SLASH
        invariant
            0 <= s <= e <= bytes@.len(),
            component_start(bytes@, e as int) == component_start(bytes@, s as int),
        decreases s,
    {
        s = s - 1;
    }
    s
}

/// Whether `path` has a file stem: its final component, ignoring trailing
/// separators, is nonempty and is neither `.` nor `..`. Exactly the inputs
/// that [`file_stem`] asks for.
pub fn has_stem(path: &str) -> (b: bool)
    ensures
        b == has_file_stem(path.spec_bytes()),
{
    let bytes: &[u8] = path.as_bytes();
    let e = trim_end(bytes);
    let s = find_component_start(bytes, e);
    if s >= e {
        false
    } else if e - s == 1 && bytes[s] == DOT {
        false
    } else if e - s == 2 && bytes[s] == DOT && bytes[s + 1] == DOT {
        false
    } else {
        true
    }
}

/// The file stem of `path`: the final component of the path (ignoring
/// trailing separators) without its extension. A dot that leads the final
/// component does not begin an extension.
pub fn file_stem<'a>(path: &'a str) -> (r: &'a str)
    requires
        has_file_stem(path.spec_bytes()),
    ensures
        r.spec_bytes() == spec_file_stem(path.spec_bytes()),
        r@ == decode_utf8(spec_file_stem(path.spec_bytes())),
{
    proof {
        encode_utf8_valid_utf8(path@);
    }
    let ghost b = path.spec_bytes();
    let bytes: &[u8] = path.as_bytes();
    let n: usize = bytes.len();
    let e = trim_end(bytes);
    let s = find_component_start(bytes, e);
    proof {
        assert(stem_start(b) == s as int);
        assert(s < e);
    }
    let mut d: usize = e;
    while d > s + 1 && bytes[d - 1] != DOT
        invariant
            s <= d <= e <= n,
            s < e,
            n == bytes@.len(),
            bytes@ == b,
            last_dot_after(b, s as int, e as int) == last_dot_after(b, s as int, d as int),
        decreases d,
    {
        d = d - 1;
    }
    let se: usize = if d > s + 1 {
        d - 1
    } else {
        e
    };
    proof {
        if d > s + 1 {
            assert(last_dot_after(b, s as int, d as int) == d - 1);
        } else {
            assert(last_dot_after(b, s as int, d as int) == -1);
        }
        assert(stem_end(b) == se as int);
        if (se as int) < b.len() {
            assert(b[se as int] == DOT || b[se as int] == SLASH);
        }
        lemma_ascii_is_boundary(b, se as int);
    }
    let (head, _tail) = path.split_at(se);
    proof {
        valid_utf8_split(b, se as int);
        assert(head.spec_bytes() =~= b.subrange(0, se as int));
        if s > 0 {
            lemma_component_start_slash(b, e as int);
            assert(head.spec_bytes()[s - 1] == b[s - 1]);
            assert(b[s - 1] == SLASH);
            lemma_after_ascii_is_boundary(head.spec_bytes(), s as int);
        }
    }
    let (_dir, stem) = head.split_at(s);
    proof {
        assert(stem.spec_bytes() =~= b.subrange(s as int, se as int));
        assert(stem.spec_bytes() == spec_file_stem(b));
        encode_utf8_decode_utf8(stem@);
    }
    stem
}

} // verus!
