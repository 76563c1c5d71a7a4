//! Percent-encoding, as `urlencoding` does it.
use vstd::prelude::*;
use vstd::utf8::decode_utf8;
use vstd::utf8::encode_scalar;
use vstd::utf8::encode_utf8;
use vstd::utf8::valid_utf8;

verus! {

/// A byte that stands for itself in a URL.
pub open spec fn is_unreserved(b: u8) -> bool {
    ||| 48 <= b <= 57
    ||| 65 <= b <= 90
    ||| 97 <= b <= 122
    ||| b == 45
    ||| b == 46
    ||| b == 95
    ||| b == 126
}

/// The upper-case hexadecimal digit for a number below sixteen.
pub open spec fn upper_hex(n: int) -> char {
    if n < 10 {
        ((48 + n) as u8) as char
    } else {
        ((55 + n) as u8) as char
    }
}

/// How a byte is written: as itself where it is unreserved, else as `%XX`.
pub open spec fn written(b: u8) -> Seq<char> {
    if is_unreserved(b) {
        seq![b as char]
    } else {
        seq!['%', upper_hex(b as int / 16), upper_hex(b as int % 16)]
    }
}

/// Bytes with every one that is not unreserved written as `%XX`.
pub open spec fn percent_encoded(bytes: Seq<u8>) -> Seq<char>
    decreases bytes.len(),
{
    if bytes.len() == 0 {
        Seq::empty()
    } else {
        written(bytes[0]) + percent_encoded(bytes.drop_first())
    }
}

/// The percent-encoded form of a text's UTF-8 bytes.
pub open spec fn url_encoded(s: Seq<char>) -> Seq<char> {
    percent_encoded(encode_utf8(s))
}

/// What a hexadecimal digit of either case stands for.
pub open spec fn hex_value(b: u8) -> Option<int> {
    if 48 <= b <= 57 {
        Some(b - 48)
    } else if 65 <= b <= 70 {
        Some(b - 55)
    } else if 97 <= b <= 102 {
        Some(b - 87)
    } else {
        None
    }
}

/// Bytes with every `%XX` replaced by the byte it stands for. A `%` without two digits stays.
pub open spec fn percent_decoded(b: Seq<u8>) -> Seq<u8>
    decreases b.len(),
{
    if b.len() == 0 {
        b
    } else if b[0] == 37 && b.len() >= 3 && hex_value(b[1]) is Some && hex_value(b[2]) is Some {
        seq![(16 * hex_value(b[1]).unwrap() + hex_value(b[2]).unwrap()) as u8] + percent_decoded(
            b.skip(3),
        )
    } else {
        seq![b[0]] + percent_decoded(b.skip(1))
    }
}

/// The text that a percent-encoded one stands for; none where the decoded bytes are not UTF-8.
pub open spec fn url_decoded(s: Seq<char>) -> Option<Seq<char>> {
    let bytes = percent_decoded(encode_utf8(s));
    if valid_utf8(bytes) {
        Some(decode_utf8(bytes))
    } else {
        None
    }
}

/// `urlencoding::encode`: letters, digits and `-._~` stay, every other byte of the UTF-8 form
/// becomes `%` and two upper-case hexadecimal digits.
#[verifier::external_body]
pub(crate) fn url_encode(s: &str) -> (r: String)
    ensures
        r@ == url_encoded(s@),
{
    urlencoding::encode(s).into_owned()
}

/// `urlencoding::decode`: every `%` with two hexadecimal digits of either case becomes the byte they
/// stand for, everything else stays, and the bytes are read as UTF-8; an error where they are not.
#[verifier::external_body]
pub(crate) fn url_decode(s: &str) -> (r: Option<String>)
    ensures
        match r {
            Some(t) => url_decoded(s@) == Some(t@),
            None => url_decoded(s@) is None,
        },
{
    match urlencoding::decode(s) {
        Ok(t) => Some(t.into_owned()),
        Err(_) => None,
    }
}

proof fn lemma_encode_ascii(c: char, rest: Seq<char>)
    requires
        (c as u32) < 128,
    ensures
        encode_utf8(seq![c] + rest) == seq![(c as u32) as u8] + encode_utf8(rest),
{
    let all = seq![c] + rest;
    assert(all.drop_first() =~= rest);
    let u = c as u32;
    assert((u & 0x7F) == u) by (bit_vector)
        requires
            u < 128,
    ;
    assert(encode_scalar(c as u32) =~= seq![(c as u32) as u8]);
}

/// Percent-encoded bytes decode to what they were.
proof fn lemma_bytes_read_back(bytes: Seq<u8>)
    ensures
        percent_decoded(encode_utf8(percent_encoded(bytes))) == bytes,
    decreases bytes.len(),
{
    if bytes.len() == 0 {
        assert(encode_utf8(percent_encoded(bytes)) =~= Seq::empty());
        assert(percent_decoded(Seq::<u8>::empty()) =~= bytes);
    } else {
        let b = bytes[0];
        let rest = percent_encoded(bytes.drop_first());
        let tail = encode_utf8(rest);
        lemma_bytes_read_back(bytes.drop_first());
        assert(bytes =~= seq![b] + bytes.drop_first());
        if is_unreserved(b) {
            lemma_encode_ascii(b as char, rest);
            let all = seq![b] + tail;
            assert(all.skip(1) =~= tail);
        } else {
            let h = upper_hex(b as int / 16);
            let l = upper_hex(b as int % 16);
            assert(written(b) + rest =~= seq!['%'] + (seq![h] + (seq![l] + rest)));
            lemma_encode_ascii(l, rest);
            lemma_encode_ascii(h, seq![l] + rest);
            lemma_encode_ascii('%', seq![h] + (seq![l] + rest));
            let x = (h as u32) as u8;
            let y = (l as u32) as u8;
            let all = seq![37u8] + (seq![x] + (seq![y] + tail));
            assert(all.skip(3) =~= tail);
            assert(all[0] == 37 && all[1] == x && all[2] == y);
            assert(hex_value(x) == Some(b as int / 16));
            assert(hex_value(y) == Some(b as int % 16));
        }
    }
}

/// Whatever text is percent-encoded, decoding gives it back.
pub proof fn law_encoded_text_reads_back(s: Seq<char>)
    ensures
        url_decoded(url_encoded(s)) == Some(s),
{
    lemma_bytes_read_back(encode_utf8(s));
    vstd::utf8::encode_utf8_valid_utf8(s);
    vstd::utf8::encode_utf8_decode_utf8(s);
}

} // verus!
