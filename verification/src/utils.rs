//! Shared utility functions: ANSI stripping and escaping for debug display.

use vstd::prelude::*;
use vstd::utf8::*;

use crate::text::{chars_of, push_char};

verus! {

/// What `strip_ansi_escapes::strip` returns for the given bytes.
pub uninterp spec fn ansi_stripped(bytes: Seq<u8>) -> Seq<u8>;

/// What `String::from_utf8_lossy` decodes from the given bytes.
pub uninterp spec fn lossy_decoded(bytes: Seq<u8>) -> Seq<char>;

/// Whether every byte is a printable ASCII character or a line feed.
pub open spec fn is_plain_bytes(b: Seq<u8>) -> bool {
    forall|i: int| 0 <= i < b.len() ==> #[trigger] b[i] == 0x0a || (0x20 <= b[i] && b[i] <= 0x7e)
}

/// Whether every character is a printable ASCII character or a line feed.
pub open spec fn is_plain_text(s: Seq<char>) -> bool {
    forall|i: int| 0 <= i < s.len() ==> #[trigger] s[i] == '\n' || (' ' <= s[i] && s[i] <= '~')
}

/// Calls `strip_ansi_escapes::strip` on the UTF-8 bytes of `s`.
///
/// The result is named by `ansi_stripped`. The crate's writer only writes back
/// the characters that vte's parser prints (each with `write!("{}", c)`) and a
/// line feed for each executed line feed byte, so the result is valid UTF-8
/// (also the claim of the crate's own `strip_str`). The parser never prints a
/// control character below U+0020 (its ground state executes them, and an
/// escape byte leaves the ground state), so the result holds no escape byte.
/// Input made only of printable ASCII and line feeds holds no escape byte, so
/// the parser stays in its ground state and hands every byte back as it is.
/// What the parser drops from other input is not stated.
#[verifier::external_body]
fn strip_escape_bytes(s: &str) -> (r: Vec<u8>)
    ensures
        r@ == ansi_stripped(encode_utf8(s@)),
        valid_utf8(r@),
        forall|i: int| 0 <= i < r@.len() ==> #[trigger] r@[i] != 0x1b,
        is_plain_bytes(encode_utf8(s@)) ==> r@ == encode_utf8(s@),
{
    strip_ansi_escapes::strip(s)
}

/// Calls `String::from_utf8_lossy` and takes the owned result.
///
/// The result is named by `lossy_decoded`; on valid UTF-8 the standard library
/// documents that it is the decoded text itself (no replacement characters).
#[verifier::external_body]
fn utf8_lossy(bytes: &[u8]) -> (r: String)
    ensures
        r@ == lossy_decoded(bytes@),
        valid_utf8(bytes@) ==> r@ == decode_utf8(bytes@),
{
    String::from_utf8_lossy(bytes).into_owned()
}

/// The text of `s` with its ANSI escape sequences removed.
pub open spec fn stripped_text(s: Seq<char>) -> Seq<char> {
    decode_utf8(ansi_stripped(encode_utf8(s)))
}

/// An escape character in a text gives an escape byte in its UTF-8 encoding.
proof fn lemma_escape_char_encoded(cs: Seq<char>, i: int)
    requires
        0 <= i < cs.len(),
        cs[i] == '\x1b',
    ensures
        exists|j: int| 0 <= j < encode_utf8(cs).len() && #[trigger] encode_utf8(cs)[j] == 0x1b,
    decreases cs.len(),
{
    let first = encode_scalar(cs[0] as u32);
    let rest = encode_utf8(cs.drop_first());
    assert(encode_utf8(cs) == first + rest);
    if i == 0 {
        let c0 = cs[0] as u32;
        assert(c0 == 0x1b);
        assert((c0 & 0x7f) as u8 == 0x1b) by (bit_vector)
            requires
                c0 == 0x1b,
        ;
        assert(encode_utf8(cs)[0] == 0x1b);
    } else {
        lemma_escape_char_encoded(cs.drop_first(), i - 1);
        let j = choose|j: int| 0 <= j < rest.len() && #[trigger] rest[j] == 0x1b;
        assert(encode_utf8(cs)[first.len() + j] == 0x1b);
    }
}

/// Plain text encodes to plain bytes.
proof fn lemma_plain_text_bytes(s: Seq<char>)
    requires
        is_plain_text(s),
    ensures
        is_plain_bytes(encode_utf8(s)),
{
    assert(is_ascii_chars(s)) by {
        assert forall|i: int| 0 <= i < s.len() implies '\0' <= #[trigger] s[i] <= '\u{7f}' by {
            assert(s[i] == '\n' || (' ' <= s[i] && s[i] <= '~'));
        }
    }
    is_ascii_chars_encode_utf8(s);
    let b = encode_utf8(s);
    assert forall|i: int| 0 <= i < b.len() implies #[trigger] b[i] == 0x0a || (0x20 <= b[i] && b[i]
        <= 0x7e) by {
        assert(s[i] as u8 == b[i]);
        assert(s[i] == '\n' || (' ' <= s[i] && s[i] <= '~'));
    }
}

/// Strip ANSI escape codes from a string
pub fn strip_ansi(s: &str) -> (r: String)
    ensures
        r@ == stripped_text(s@),
        forall|i: int| 0 <= i < r@.len() ==> #[trigger] r@[i] != '\x1b',
        is_plain_text(s@) ==> r@ == s@,
{
    let bytes = strip_escape_bytes(s);
    let r = utf8_lossy(bytes.as_slice());
    proof {
        decode_utf8_encode_utf8(bytes@);
        assert(encode_utf8(r@) == bytes@);
        assert forall|i: int| 0 <= i < r@.len() implies #[trigger] r@[i] != '\x1b' by {
            if r@[i] == '\x1b' {
                lemma_escape_char_encoded(r@, i);
            }
        }
        if is_plain_text(s@) {
            lemma_plain_text_bytes(s@);
            encode_utf8_decode_utf8(s@);
        }
    }
    r
}

/// How one character is shown in debug output.
pub open spec fn escape_char(c: char) -> Seq<char> {
    if c == '\x1b' {
        seq!['\\', 'e']
    } else if c == '\t' {
        seq!['\\', 't']
    } else if c == '\r' {
        seq!['\\', 'r']
    } else {
        seq![c]
    }
}

/// `s` with escape, tab and carriage return characters spelled out.
pub open spec fn escaped(s: Seq<char>) -> Seq<char>
    decreases s.len(),
{
    if s.len() == 0 {
        Seq::empty()
    } else {
        escaped(s.drop_last()) + escape_char(s.last())
    }
}

/// Appends `escaped(cs[lo..hi])` to `out`.
pub fn push_escaped_range(out: &mut String, cs: &[char], lo: usize, hi: usize)
    requires
        lo <= hi <= cs.len(),
    ensures
        final(out)@ == old(out)@ + escaped(cs@.subrange(lo as int, hi as int)),
{
    let mut i: usize = lo;
    while i < hi
        invariant
            lo <= i <= hi <= cs.len(),
            out@ == old(out)@ + escaped(cs@.subrange(lo as int, i as int)),
        decreases hi - i,
    {
        let c = cs[i];
        if c == '\x1b' {
            push_char(out, '\\');
            push_char(out, 'e');
        } else if c == '\t' {
            push_char(out, '\\');
            push_char(out, 't');
        } else if c == '\r' {
            push_char(out, '\\');
            push_char(out, 'r');
        } else {
            push_char(out, c);
        }
        proof {
            assert(cs@.subrange(lo as int, i + 1).drop_last() =~= cs@.subrange(lo as int, i as int));
        }
        i += 1;
    }
}

/// Escape special characters for debug display
pub fn escape_debug(s: &str) -> (r: String)
    ensures
        r@ == escaped(s@),
{
    let cs = chars_of(s);
    let mut out = String::new();
    push_escaped_range(&mut out, cs.as_slice(), 0, cs.len());
    proof {
        assert(cs@.subrange(0, cs@.len() as int) =~= s@);
    }
    out
}

/// The characters that `escaped` spells out.
pub open spec fn is_escaped_char(c: char) -> bool {
    c == '\x1b' || c == '\t' || c == '\r'
}

/// Escaping distributes over concatenation.
pub proof fn lemma_escaped_concat(a: Seq<char>, b: Seq<char>)
    ensures
        escaped(a + b) == escaped(a) + escaped(b),
    decreases b.len(),
{
    if b.len() == 0 {
        assert(a + b =~= a);
        assert(escaped(a) + escaped(b) =~= escaped(a));
    } else {
        assert((a + b).drop_last() =~= a + b.drop_last());
        assert((a + b).last() == b.last());
        lemma_escaped_concat(a, b.drop_last());
        assert(escaped(a + b) =~= escaped(a) + escaped(b));
    }
}

/// Escaped text holds no escape, tab or carriage return character: every one
/// of them has been spelled out.
pub proof fn lemma_escaped_has_no_escaped_chars(s: Seq<char>)
    ensures
        forall|i: int| 0 <= i < escaped(s).len() ==> !is_escaped_char(#[trigger] escaped(s)[i]),
    decreases s.len(),
{
    if s.len() > 0 {
        lemma_escaped_has_no_escaped_chars(s.drop_last());
        let e = escaped(s.drop_last());
        assert forall|i: int| 0 <= i < escaped(s).len() implies !is_escaped_char(
            #[trigger] escaped(s)[i],
        ) by {
            if i < e.len() {
                assert(escaped(s)[i] == e[i]);
            }
        }
    }
}

/// Text without escape, tab or carriage return characters is left as it is.
pub proof fn lemma_escaped_plain(s: Seq<char>)
    requires
        forall|i: int| 0 <= i < s.len() ==> !is_escaped_char(#[trigger] s[i]),
    ensures
        escaped(s) == s,
    decreases s.len(),
{
    if s.len() > 0 {
        lemma_escaped_plain(s.drop_last());
        assert(!is_escaped_char(s[s.len() - 1]));
        assert(escaped(s) =~= s.drop_last().push(s.last()));
        assert(s.drop_last().push(s.last()) =~= s);
    }
}

/// Escaping for debug display is idempotent: escaping already escaped text
/// changes nothing.
pub proof fn lemma_escape_debug_idempotent(s: Seq<char>)
    ensures
        escaped(escaped(s)) == escaped(s),
{
    lemma_escaped_has_no_escaped_chars(s);
    lemma_escaped_plain(escaped(s));
}

} // verus!
