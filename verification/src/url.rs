//! The address of a catalogue search: the site's search path followed by the
//! search term in percent-encoding, as `urlencoding::encode` writes it.

use vstd::prelude::*;
use vstd::string::StringSliceAdditionalSpecFns;
use vstd::utf8::encode_utf8_decode_utf8;

verus! {

/// A byte that percent-encoding leaves as it is: an ASCII letter or digit, or
/// one of `-`, `.`, `_`, `~`.
pub open spec fn is_unreserved(b: u8) -> bool {
    ||| (48 <= b && b <= 57)
    ||| (65 <= b && b <= 90)
    ||| (97 <= b && b <= 122)
    ||| b == 45
    ||| b == 46
    ||| b == 95
    ||| b == 126
}

/// The upper-case hexadecimal digit for `d`, which is below sixteen.
pub open spec fn hex_digit(d: nat) -> char {
    if d < 10 {
        (d + 48) as char
    } else {
        (d + 55) as char
    }
}

/// The percent-encoding of a byte: the byte itself as a character where it is
/// unreserved, otherwise `%` and its two upper-case hexadecimal digits.
pub open spec fn encoded_byte(b: u8) -> Seq<char> {
    if is_unreserved(b) {
        seq![b as char]
    } else {
        seq!['%', hex_digit((b / 16) as nat), hex_digit((b % 16) as nat)]
    }
}

/// The percent-encoding of a byte string, byte after byte.
pub open spec fn percent_encoded(bytes: Seq<u8>) -> Seq<char>
    decreases bytes.len(),
{
    if bytes.len() == 0 {
        Seq::<char>::empty()
    } else {
        encoded_byte(bytes[0]) + percent_encoded(bytes.drop_first())
    }
}

/// `urlencoding::encode`: the UTF-8 bytes of the text, each percent-encoded
/// unless it is an ASCII letter or digit or one of `-`, `.`, `_`, `~`, with
/// upper-case hexadecimal digits.
#[verifier::external_body]
fn url_encode(text: &str) -> (r: String)
    ensures
        r@ == percent_encoded(text.spec_bytes()),
{
    urlencoding::encode(text).into_owned()
}

/// `https://www.panda-novel.com/search/`, where searches are sent.
pub open spec fn search_base() -> Seq<char> {
    "https://www.panda-novel.com/search/"@
}

/// The search address for a term: the search path, then the term's UTF-8 bytes
/// percent-encoded.
pub open spec fn search_url_of(term: Seq<char>) -> Seq<char> {
    search_base() + percent_encoded(vstd::utf8::encode_utf8(term))
}

/// The address of the catalogue's search for `term`.
pub fn search_url(term: &str) -> (r: String)
    ensures
        r@ == search_url_of(term@),
        r@.subrange(0, search_base().len() as int) == search_base(),
        vstd::utf8::decode_utf8(
            percent_decoded(r@.subrange(search_base().len() as int, r@.len() as int)),
        ) == term@,
{
    proof {
        lemma_search_url_decodes(term@);
    }
    let mut url = String::from_str("https://www.panda-novel.com/search/");
    let encoded = url_encode(term);
    url.append(encoded.as_str());
    url
}

/// A character that may stand in a URL path as it is: an unreserved ASCII
/// character or `%`.
pub open spec fn is_url_safe(c: char) -> bool {
    ||| ('0' <= c && c <= '9')
    ||| ('A' <= c && c <= 'Z')
    ||| ('a' <= c && c <= 'z')
    ||| c == '-'
    ||| c == '.'
    ||| c == '_'
    ||| c == '~'
    ||| c == '%'
}

proof fn lemma_encoded_byte_safe(b: u8)
    ensures
        forall|k: int| 0 <= k < encoded_byte(b).len() ==> is_url_safe(#[trigger] encoded_byte(b)[k]),
{
    assert(b / 16 < 16 && b % 16 < 16);
}

/// Every character of a percent-encoding may stand in a URL path as it is.
pub proof fn lemma_percent_encoded_safe(bytes: Seq<u8>)
    ensures
        forall|k: int|
            0 <= k < percent_encoded(bytes).len() ==> is_url_safe(#[trigger] percent_encoded(bytes)[k]),
    decreases bytes.len(),
{
    if bytes.len() > 0 {
        lemma_encoded_byte_safe(bytes[0]);
        lemma_percent_encoded_safe(bytes.drop_first());
        let e = encoded_byte(bytes[0]);
        let rest = percent_encoded(bytes.drop_first());
        assert forall|k: int| 0 <= k < percent_encoded(bytes).len() implies is_url_safe(
            #[trigger] percent_encoded(bytes)[k],
        ) by {
            if k < e.len() {
                assert(percent_encoded(bytes)[k] == e[k]);
            } else {
                assert(percent_encoded(bytes)[k] == rest[k - e.len()]);
            }
        }
    }
}

proof fn lemma_hex_digit_unique(d1: nat, d2: nat)
    requires
        d1 < 16,
        d2 < 16,
        hex_digit(d1) == hex_digit(d2),
    ensures
        d1 == d2,
{
}

proof fn lemma_encoded_byte_unique(b1: u8, b2: u8, r1: Seq<char>, r2: Seq<char>)
    requires
        encoded_byte(b1) + r1 == encoded_byte(b2) + r2,
    ensures
        b1 == b2,
        r1 == r2,
{
    let s1 = encoded_byte(b1) + r1;
    let s2 = encoded_byte(b2) + r2;
    assert(s1[0] == s2[0]);
    if is_unreserved(b1) {
        assert(s1[0] == b1 as char);
        if !is_unreserved(b2) {
            assert(s2[0] == '%');
        }
        assert(r1 =~= s1.drop_first());
        assert(r2 =~= s2.drop_first());
    } else {
        assert(s1[0] == '%');
        if is_unreserved(b2) {
            assert(s2[0] == b2 as char);
        }
        assert(s1[1] == s2[1]);
        assert(s1[2] == s2[2]);
        lemma_hex_digit_unique((b1 / 16) as nat, (b2 / 16) as nat);
        lemma_hex_digit_unique((b1 % 16) as nat, (b2 % 16) as nat);
        assert(r1 =~= s1.subrange(3, s1.len() as int));
        assert(r2 =~= s2.subrange(3, s2.len() as int));
    }
}

/// Percent-encoding keeps different byte strings apart.
pub proof fn lemma_percent_encoded_injective(b1: Seq<u8>, b2: Seq<u8>)
    requires
        percent_encoded(b1) == percent_encoded(b2),
    ensures
        b1 == b2,
    decreases b1.len(),
{
    if b1.len() == 0 {
        if b2.len() > 0 {
            assert(encoded_byte(b2[0]).len() > 0);
            assert(percent_encoded(b2).len() > 0);
        }
        assert(b1 =~= b2);
    } else {
        if b2.len() == 0 {
            assert(encoded_byte(b1[0]).len() > 0);
            assert(percent_encoded(b1).len() > 0);
        } else {
            lemma_encoded_byte_unique(
                b1[0],
                b2[0],
                percent_encoded(b1.drop_first()),
                percent_encoded(b2.drop_first()),
            );
            lemma_percent_encoded_injective(b1.drop_first(), b2.drop_first());
            assert(b1 =~= seq![b1[0]] + b1.drop_first());
            assert(b2 =~= seq![b2[0]] + b2.drop_first());
        }
    }
}

/// Searches for different terms go to different addresses, and everything
/// after the search path may stand in a URL as it is.
pub proof fn lemma_search_url_faithful(t1: Seq<char>, t2: Seq<char>)
    ensures
        search_url_of(t1) == search_url_of(t2) ==> t1 == t2,
        search_url_of(t1).subrange(0, search_base().len() as int) == search_base(),
        forall|k: int|
            search_base().len() <= k < search_url_of(t1).len() ==> is_url_safe(
                #[trigger] search_url_of(t1)[k],
            ),
{
    let e1 = percent_encoded(vstd::utf8::encode_utf8(t1));
    let e2 = percent_encoded(vstd::utf8::encode_utf8(t2));
    assert(search_url_of(t1).subrange(0, search_base().len() as int) =~= search_base());
    if search_url_of(t1) == search_url_of(t2) {
        assert(e1 =~= search_url_of(t1).subrange(
            search_base().len() as int,
            search_url_of(t1).len() as int,
        ));
        assert(e2 =~= search_url_of(t2).subrange(
            search_base().len() as int,
            search_url_of(t2).len() as int,
        ));
        lemma_percent_encoded_injective(
            vstd::utf8::encode_utf8(t1),
            vstd::utf8::encode_utf8(t2),
        );
        encode_utf8_decode_utf8(t1);
        encode_utf8_decode_utf8(t2);
    }
    lemma_percent_encoded_safe(vstd::utf8::encode_utf8(t1));
    assert forall|k: int|
        search_base().len() <= k < search_url_of(t1).len() implies is_url_safe(
        #[trigger] search_url_of(t1)[k],
    ) by {
        assert(search_url_of(t1)[k] == e1[k - search_base().len()]);
    }
}

/// The value of a hexadecimal digit, upper or lower case.
pub open spec fn hex_value(c: char) -> nat {
    if '0' <= c && c <= '9' {
        (c as int - '0' as int) as nat
    } else if 'A' <= c && c <= 'F' {
        (c as int - 'A' as int + 10) as nat
    } else if 'a' <= c && c <= 'f' {
        (c as int - 'a' as int + 10) as nat
    } else {
        0
    }
}

/// Percent-decoding: `%` and two hexadecimal digits stand for the byte they
/// write; any other character stands for its own code.
pub open spec fn percent_decoded(s: Seq<char>) -> Seq<u8>
    decreases s.len(),
{
    if s.len() == 0 {
        Seq::<u8>::empty()
    } else if s[0] == '%' && s.len() >= 3 {
        seq![(hex_value(s[1]) * 16 + hex_value(s[2])) as u8] + percent_decoded(
            s.subrange(3, s.len() as int),
        )
    } else {
        seq![s[0] as u8] + percent_decoded(s.drop_first())
    }
}

proof fn lemma_decode_encoded_byte(b: u8, rest: Seq<char>)
    ensures
        percent_decoded(encoded_byte(b) + rest) == seq![b] + percent_decoded(rest),
{
    let s = encoded_byte(b) + rest;
    if is_unreserved(b) {
        assert(s[0] == b as char);
        assert(s.drop_first() =~= rest);
        assert((b as char) as u8 == b);
    } else {
        assert(s[0] == '%');
        let hi = b / 16;
        let lo = b % 16;
        assert(hex_value(hex_digit(hi as nat)) == hi);
        assert(hex_value(hex_digit(lo as nat)) == lo);
        assert(s[1] == hex_digit(hi as nat));
        assert(s[2] == hex_digit(lo as nat));
        assert(hi * 16 + lo == b);
        assert(s.subrange(3, s.len() as int) =~= rest);
    }
}

/// Percent-decoding undoes percent-encoding.
pub proof fn lemma_percent_decoded_encoded(bytes: Seq<u8>)
    ensures
        percent_decoded(percent_encoded(bytes)) == bytes,
    decreases bytes.len(),
{
    if bytes.len() > 0 {
        lemma_decode_encoded_byte(bytes[0], percent_encoded(bytes.drop_first()));
        lemma_percent_decoded_encoded(bytes.drop_first());
        assert(bytes =~= seq![bytes[0]] + bytes.drop_first());
    }
}

/// The search address for a term is the search path followed by a text that,
/// percent-decoded and read as UTF-8, is the term itself: the site is asked
/// for exactly the term.
pub proof fn lemma_search_url_decodes(term: Seq<char>)
    ensures
        search_url_of(term).subrange(0, search_base().len() as int) == search_base(),
        vstd::utf8::decode_utf8(
            percent_decoded(
                search_url_of(term).subrange(
                    search_base().len() as int,
                    search_url_of(term).len() as int,
                ),
            ),
        ) == term,
{
    let bytes = vstd::utf8::encode_utf8(term);
    let e = percent_encoded(bytes);
    assert(search_url_of(term).subrange(0, search_base().len() as int) =~= search_base());
    assert(search_url_of(term).subrange(
        search_base().len() as int,
        search_url_of(term).len() as int,
    ) =~= e);
    lemma_percent_decoded_encoded(bytes);
    encode_utf8_decode_utf8(term);
}

} // verus!
