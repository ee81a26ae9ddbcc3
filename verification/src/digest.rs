//! Keyed digests of content.
use crate::json::hex_digit;
use vstd::prelude::*;
use vstd::utf8::encode_utf8;

verus! {

/// The HMAC-SHA-256 code of a message under a key.
pub uninterp spec fn hmac_sha256(key: Seq<u8>, message: Seq<u8>) -> Seq<u8>;

/// Bytes in hexadecimal: two lower-case digits for each, the high one first.
pub open spec fn hex_text(bytes: Seq<u8>) -> Seq<char> {
    Seq::new(
        2 * bytes.len(),
        |i: int|
            if i % 2 == 0 {
                hex_digit(bytes[i / 2] as int / 16)
            } else {
                hex_digit(bytes[i / 2] as int % 16)
            },
    )
}

/// The digest of a content under a salt: the HMAC-SHA-256 code of the content's bytes under the
/// salt's bytes, in hexadecimal.
pub open spec fn digest_text(content: Seq<char>, salt: Seq<char>) -> Seq<char> {
    hex_text(hmac_sha256(encode_utf8(salt), encode_utf8(content)))
}

/// Whether a text has the form of a digest: 64 lower-case hexadecimal digits.
pub open spec fn is_digest(s: Seq<char>) -> bool {
    &&& s.len() == 64
    &&& forall|i: int|
        0 <= i < s.len() ==> '0' <= (#[trigger] s[i]) <= '9' || 'a' <= s[i] <= 'f'
}

/// `hmac::Hmac<sha2::Sha256>`, keyed by `new_from_slice`, which takes keys of every length, fed
/// the message by one `update` and finished by `finalize`: the code is a function of the key and
/// the message alone, and has 32 bytes.
#[verifier::external_body]
fn hmac_code(key: &[u8], message: &[u8]) -> (r: Vec<u8>)
    ensures
        r@ == hmac_sha256(key@, message@),
        r@.len() == 32,
{
    let mut mac = <hmac::Hmac<sha2::Sha256> as hmac::Mac>::new_from_slice(key)
        .expect("HMAC accepts any key length");
    hmac::Mac::update(&mut mac, message);
    hmac::Mac::finalize(mac).into_bytes().to_vec()
}

/// [`hex::encode`] writes each byte as two lower-case hexadecimal digits.
#[verifier::external_body]
fn hex_encode(bytes: &[u8]) -> (r: String)
    ensures
        r@ == hex_text(bytes@),
{
    hex::encode(bytes)
}

/// The digest of a content under a salt.
pub fn hmac_content(content: &str, salt: &str) -> (r: String)
    ensures
        r@ == digest_text(content@, salt@),
        r@ == hex_text(hmac_sha256(encode_utf8(salt@), encode_utf8(content@))),
        is_digest(r@),
{
    let code = hmac_code(salt.as_bytes(), content.as_bytes());
    proof {
        law_digest_is_hex(content@, salt@);
    }
    hex_encode(code.as_slice())
}

/// A digest consists of lower-case hexadecimal digits.
pub proof fn law_digest_is_hex(content: Seq<char>, salt: Seq<char>)
    ensures
        forall|i: int|
            0 <= i < digest_text(content, salt).len() ==> {
                let c = #[trigger] digest_text(content, salt)[i];
                '0' <= c <= '9' || 'a' <= c <= 'f'
            },
{
}

/// Bytes are written one by one, each as its high and its low digit.
pub proof fn law_hex_goes_byte_by_byte(bytes: Seq<u8>, b: u8)
    ensures
        hex_text(bytes.push(b)) == hex_text(bytes) + seq![
            hex_digit(b as int / 16),
            hex_digit(b as int % 16),
        ],
        hex_text(Seq::empty()) == Seq::<char>::empty(),
{
    let longer = hex_text(bytes.push(b));
    let want = hex_text(bytes) + seq![hex_digit(b as int / 16), hex_digit(b as int % 16)];
    assert forall|i: int| 0 <= i < want.len() implies longer[i] == want[i] by {
        if i < 2 * bytes.len() {
            assert(bytes.push(b)[i / 2] == bytes[i / 2]);
        } else {
            assert(i / 2 == bytes.len());
        }
    }
    assert(longer =~= want);
    assert(hex_text(Seq::empty()) =~= Seq::<char>::empty());
}

/// The digits of bytes are the ten decimal digits and the letters behind them.
pub proof fn law_hex_digits(d: int)
    requires
        0 <= d < 16,
    ensures
        d < 10 ==> hex_digit(d) as int == '0' as int + d,
        d >= 10 ==> hex_digit(d) as int == 'a' as int + (d - 10),
{
}

/// A digest is the code of all bytes of the content under all bytes of the salt, whatever their
/// length.
pub proof fn law_digest_is_of_the_whole_content(content: Seq<char>, salt: Seq<char>)
    ensures
        digest_text(content, salt) == hex_text(
            hmac_sha256(encode_utf8(salt), encode_utf8(content)),
        ),
{
}

} // verus!
