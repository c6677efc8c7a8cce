//! Percent-encoding of UTF-8 text for URLs and query strings.
use vstd::prelude::*;
use vstd::string::StringSliceAdditionalSpecFns;
use vstd::utf8::{encode_utf8, is_ascii_chars, is_ascii_chars_encode_utf8};

verus! {

/// RFC 3986 unreserved bytes: ASCII letters, digits, `-`, `.`, `_` and `~`.
pub open spec fn is_unreserved(b: u8) -> bool {
    (0x41 <= b && b <= 0x5a) || (0x61 <= b && b <= 0x7a) || (0x30 <= b && b <= 0x39) || b == 0x2d
        || b == 0x2e || b == 0x5f || b == 0x7e
}

/// An upper-case hexadecimal digit for `d < 16`.
pub open spec fn hex_upper(d: u8) -> char {
    if d < 10 {
        ((d + 48) as u8) as char
    } else {
        ((d + 55) as u8) as char
    }
}

/// The encoding of one byte: kept as is when unreserved (or a `/` that is
/// kept), `%XX` with upper-case hex digits otherwise.
pub open spec fn pct_byte(b: u8, keep_slash: bool) -> Seq<char> {
    if is_unreserved(b) || (keep_slash && b == 0x2f) {
        seq![b as char]
    } else {
        seq!['%', hex_upper(b / 16), hex_upper(b % 16)]
    }
}

/// Percent-encoding of a byte string, byte by byte.
pub open spec fn pct_encode(bytes: Seq<u8>, keep_slash: bool) -> Seq<char>
    decreases bytes.len(),
{
    if bytes.len() == 0 {
        Seq::empty()
    } else {
        pct_encode(bytes.drop_last(), keep_slash) + pct_byte(bytes.last(), keep_slash)
    }
}

fn hex_upper_digit(d: u8) -> (c: char)
    requires
        d < 16,
    ensures
        c == hex_upper(d),
{
    if d < 10 {
        (d + 48) as char
    } else {
        (d + 55) as char
    }
}

/// Appends the percent-encoding of the UTF-8 bytes of `s` to `out`.
pub fn push_pct_encoded(out: &mut Vec<char>, s: &str, keep_slash: bool)
    ensures
        final(out)@ == old(out)@ + pct_encode(s.spec_bytes(), keep_slash),
{
    let bytes = s.as_bytes();
    let mut i: usize = 0;
    proof {
        assert(bytes@.take(0) == Seq::<u8>::empty());
    }
    while i < bytes.len()
        invariant
            i <= bytes@.len(),
            bytes@ == s.spec_bytes(),
            out@ == old(out)@ + pct_encode(bytes@.take(i as int), keep_slash),
        decreases bytes.len() - i,
    {
        let b = bytes[i];
        let ghost before = out@;
        if (0x41 <= b && b <= 0x5a) || (0x61 <= b && b <= 0x7a) || (0x30 <= b && b <= 0x39) || b
            == 0x2d || b == 0x2e || b == 0x5f || b == 0x7e || (keep_slash && b == 0x2f) {
            out.push(b as char);
        } else {
            out.push('%');
            out.push(hex_upper_digit(b / 16));
            out.push(hex_upper_digit(b % 16));
        }
        proof {
            assert(bytes@.take(i + 1).drop_last() == bytes@.take(i as int));
            assert(bytes@.take(i + 1).last() == b);
            assert(out@ == before + pct_byte(b, keep_slash));
        }
        i = i + 1;
    }
    proof {
        assert(bytes@.take(bytes@.len() as int) == bytes@);
    }
}

/// The byte of the upper-case hexadecimal digit for `d < 16`.
pub open spec fn hex_upper_byte(d: u8) -> u8 {
    if d < 10 {
        (d + 48) as u8
    } else {
        (d + 55) as u8
    }
}

/// The bytes of the encoding of one byte.
pub open spec fn pct_byte_bytes(b: u8, keep_slash: bool) -> Seq<u8> {
    if is_unreserved(b) || (keep_slash && b == 0x2f) {
        seq![b]
    } else {
        seq![0x25u8, hex_upper_byte(b / 16), hex_upper_byte(b % 16)]
    }
}

/// The bytes of the percent-encoding of a byte string.
pub open spec fn pct_encode_bytes(bytes: Seq<u8>, keep_slash: bool) -> Seq<u8>
    decreases bytes.len(),
{
    if bytes.len() == 0 {
        Seq::empty()
    } else {
        pct_encode_bytes(bytes.drop_last(), keep_slash) + pct_byte_bytes(bytes.last(), keep_slash)
    }
}

proof fn lemma_pct_encode_map(bytes: Seq<u8>, keep_slash: bool)
    ensures
        is_ascii_chars(pct_encode(bytes, keep_slash)),
        pct_encode(bytes, keep_slash).len() == pct_encode_bytes(bytes, keep_slash).len(),
        forall|i: int|
            0 <= i < pct_encode_bytes(bytes, keep_slash).len() ==> #[trigger] pct_encode_bytes(
                bytes,
                keep_slash,
            )[i] == pct_encode(bytes, keep_slash)[i] as u8,
    decreases bytes.len(),
{
    if bytes.len() > 0 {
        let dl = bytes.drop_last();
        let b = bytes.last();
        lemma_pct_encode_map(dl, keep_slash);
        let e = pct_encode(dl, keep_slash);
        let eb = pct_encode_bytes(dl, keep_slash);
        let c = pct_byte(b, keep_slash);
        let cb = pct_byte_bytes(b, keep_slash);
        assert(c.len() == cb.len());
        assert forall|k: int| 0 <= k < c.len() implies '\0' <= #[trigger] c[k] <= '\u{7f}' && cb[k]
            == c[k] as u8 by {
            if !(is_unreserved(b) || (keep_slash && b == 0x2f)) {
                assert(b / 16 < 16 && b % 16 < 16);
            }
        }
        assert forall|i: int| 0 <= i < (e + c).len() implies '\0' <= #[trigger] (e + c)[i]
            <= '\u{7f}' by {
            if i >= e.len() {
                assert((e + c)[i] == c[i - e.len()]);
            }
        }
        assert forall|i: int| 0 <= i < (eb + cb).len() implies #[trigger] (eb + cb)[i] == (e
            + c)[i] as u8 by {
            if i >= eb.len() {
                assert((eb + cb)[i] == cb[i - eb.len()]);
                assert((e + c)[i] == c[i - e.len()]);
            } else {
                assert((eb + cb)[i] == eb[i]);
                assert((e + c)[i] == e[i]);
            }
        }
    }
}

/// The percent-encoding is ASCII text whose UTF-8 bytes are
/// `pct_encode_bytes`.
pub proof fn lemma_pct_encode_utf8(bytes: Seq<u8>, keep_slash: bool)
    ensures
        is_ascii_chars(pct_encode(bytes, keep_slash)),
        encode_utf8(pct_encode(bytes, keep_slash)) == pct_encode_bytes(bytes, keep_slash),
{
    lemma_pct_encode_map(bytes, keep_slash);
    let e = pct_encode(bytes, keep_slash);
    is_ascii_chars_encode_utf8(e);
    assert(encode_utf8(e) =~= pct_encode_bytes(bytes, keep_slash));
}

/// The encoding read from its first byte on.
pub proof fn lemma_pct_encode_bytes_front(bytes: Seq<u8>, keep_slash: bool)
    requires
        bytes.len() > 0,
    ensures
        pct_encode_bytes(bytes, keep_slash) == pct_byte_bytes(bytes[0], keep_slash)
            + pct_encode_bytes(bytes.drop_first(), keep_slash),
    decreases bytes.len(),
{
    if bytes.len() == 1 {
        assert(pct_encode_bytes(bytes.drop_last(), keep_slash) == Seq::<u8>::empty());
        assert(pct_encode_bytes(bytes.drop_first(), keep_slash) == Seq::<u8>::empty());
        assert(bytes.last() == bytes[0]);
        assert(pct_encode_bytes(bytes, keep_slash) =~= pct_byte_bytes(bytes[0], keep_slash)
            + pct_encode_bytes(bytes.drop_first(), keep_slash));
    } else {
        let dl = bytes.drop_last();
        lemma_pct_encode_bytes_front(dl, keep_slash);
        assert(dl.drop_first() =~= bytes.drop_first().drop_last());
        assert(bytes.drop_first().last() == bytes.last());
        assert(dl[0] == bytes[0]);
        let df = bytes.drop_first();
        assert(pct_encode_bytes(df, keep_slash) == pct_encode_bytes(df.drop_last(), keep_slash)
            + pct_byte_bytes(df.last(), keep_slash));
        assert(pct_encode_bytes(bytes, keep_slash) == pct_encode_bytes(dl, keep_slash)
            + pct_byte_bytes(bytes.last(), keep_slash));
        assert(pct_encode_bytes(bytes, keep_slash) =~= pct_byte_bytes(bytes[0], keep_slash)
            + pct_encode_bytes(bytes.drop_first(), keep_slash));
    }
}

/// Every byte of an encoding is ASCII, and with `/` encoded too, none is a
/// `&`, a `=` or a `+`.
pub proof fn lemma_pct_encode_bytes_plain(bytes: Seq<u8>)
    ensures
        forall|i: int|
            0 <= i < pct_encode_bytes(bytes, false).len() ==> {
                let c = #[trigger] pct_encode_bytes(bytes, false)[i];
                c < 0x80 && c != 0x26 && c != 0x3d && c != 0x2b
            },
    decreases bytes.len(),
{
    if bytes.len() > 0 {
        let dl = bytes.drop_last();
        lemma_pct_encode_bytes_plain(dl);
        let eb = pct_encode_bytes(dl, false);
        let cb = pct_byte_bytes(bytes.last(), false);
        assert(bytes.last() / 16 < 16 && bytes.last() % 16 < 16);
        assert forall|i: int| 0 <= i < (eb + cb).len() implies {
            let c = #[trigger] (eb + cb)[i];
            c < 0x80 && c != 0x26 && c != 0x3d && c != 0x2b
        } by {
            if i >= eb.len() {
                assert((eb + cb)[i] == cb[i - eb.len()]);
            } else {
                assert((eb + cb)[i] == eb[i]);
            }
        }
    }
}

} // verus!
