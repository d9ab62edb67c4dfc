use vstd::prelude::*;
use vstd::string::StrSliceExecFns;
use vstd::utf8::encode_utf8;

use hmac::Mac;

use crate::error::AppError;

verus! {

/// The byte that separates the fields of a token payload (`'|'`).
pub const FIELD_SEPARATOR: u8 = 124;

/// A person found by a directory search.
pub struct PersonSearchResult {
    pub username: String,
    pub name: String,
}

/// A search result handed to a client, with a tag binding it to one election.
pub struct SignedPersonSearchResultDto {
    pub username: String,
    pub display_name: String,
    /// Lowercase hex of the tag.
    pub signature: String,
}

/// `bytes` with every separator byte removed.
pub open spec fn strip_separators(bytes: Seq<u8>) -> Seq<u8>
    decreases bytes.len(),
{
    if bytes.len() == 0 {
        bytes
    } else if bytes.last() == FIELD_SEPARATOR {
        strip_separators(bytes.drop_last())
    } else {
        strip_separators(bytes.drop_last()).push(bytes.last())
    }
}

/// The four big-endian bytes of an election id.
pub open spec fn be_bytes(id: i32) -> Seq<u8> {
    let u = id as u32;
    seq![(u >> 24u32) as u8, (u >> 16u32) as u8, (u >> 8u32) as u8, u as u8]
}

/// The canonical byte string that a token's tag covers: the election id, then
/// the username and the display name, each as UTF-8 with separators removed,
/// all joined by the separator.
pub open spec fn token_payload(id: i32, username: Seq<char>, display_name: Seq<char>) -> Seq<u8> {
    be_bytes(id) + seq![FIELD_SEPARATOR] + strip_separators(encode_utf8(username)) + seq![
        FIELD_SEPARATOR,
    ] + strip_separators(encode_utf8(display_name))
}

/// The lowercase hex digit of a value below 16.
pub open spec fn hex_digit(n: int) -> char {
    if n < 10 {
        (48 + n) as char
    } else {
        (87 + n) as char
    }
}

/// Lowercase hex encoding: two digits per byte, high nibble first.
pub open spec fn hex_of(bytes: Seq<u8>) -> Seq<char> {
    Seq::new(
        2 * bytes.len(),
        |i: int|
            if i % 2 == 0 {
                hex_digit(bytes[i / 2] as int / 16)
            } else {
                hex_digit(bytes[i / 2] as int % 16)
            },
    )
}

/// A hex digit of either case.
pub open spec fn is_hex_char(c: char) -> bool {
    ('0' <= c && c <= '9') || ('a' <= c && c <= 'f') || ('A' <= c && c <= 'F')
}

/// The value of a hex digit.
pub open spec fn hex_value(c: char) -> int {
    if '0' <= c && c <= '9' {
        c as int - 48
    } else if 'a' <= c && c <= 'f' {
        c as int - 87
    } else {
        c as int - 55
    }
}

/// `s` is a whole hex string: even length, hex digits only.
pub open spec fn is_hex_string(s: Seq<char>) -> bool {
    s.len() % 2 == 0 && forall|i: int| 0 <= i < s.len() ==> is_hex_char(#[trigger] s[i])
}

/// The bytes that a hex string stands for.
pub open spec fn hex_decoded(s: Seq<char>) -> Seq<u8> {
    Seq::new(
        s.len() / 2,
        |i: int| (hex_value(s[2 * i]) * 16 + hex_value(s[2 * i + 1])) as u8,
    )
}

/// The HMAC-SHA256 tag of `msg` under `key`.
pub uninterp spec fn hmac_sha256_of(key: Seq<u8>, msg: Seq<u8>) -> Seq<u8>;

/// The signature that a token carries for these fields under `key`.
pub open spec fn token_signature(
    key: Seq<u8>,
    id: i32,
    username: Seq<char>,
    display_name: Seq<char>,
) -> Seq<char> {
    hex_of(hmac_sha256_of(key, token_payload(id, username, display_name)))
}

/// A lowercase hex digit.
pub open spec fn is_lower_hex_char(c: char) -> bool {
    ('0' <= c && c <= '9') || ('a' <= c && c <= 'f')
}

/// A token is accepted: its signature is exactly the lowercase hex of the
/// tag of its fields, so changing any character of it is detected.
pub open spec fn token_valid(
    key: Seq<u8>,
    id: i32,
    username: Seq<char>,
    display_name: Seq<char>,
    signature: Seq<char>,
) -> bool {
    signature == token_signature(key, id, username, display_name)
}

/// Relies on hmac::Hmac<sha2::Sha256>: `new_from_slice` takes a key of any
/// length, and `finalize` gives the tag of what was fed to `update`, as many
/// bytes as a SHA-256 digest (32).
#[verifier::external_body]
fn hmac_sha256(key: &[u8], msg: &[u8]) -> (r: Vec<u8>)
    ensures
        r@ == hmac_sha256_of(key@, msg@),
        r@.len() == 32,
{
    let mut mac = <hmac::Hmac<sha2::Sha256> as Mac>::new_from_slice(key).expect(
        "HMAC accepts keys of any length",
    );
    mac.update(msg);
    mac.finalize().into_bytes().to_vec()
}

/// Relies on hmac::Mac::verify_slice for Hmac<sha2::Sha256>: it accepts
/// exactly the tag that `finalize` would give, compared in constant time.
#[verifier::external_body]
fn hmac_sha256_verify(key: &[u8], msg: &[u8], tag: &[u8]) -> (r: bool)
    ensures
        r == (tag@ == hmac_sha256_of(key@, msg@)),
{
    let mut mac = <hmac::Hmac<sha2::Sha256> as Mac>::new_from_slice(key).expect(
        "HMAC accepts keys of any length",
    );
    mac.update(msg);
    mac.verify_slice(tag).is_ok()
}

/// Relies on hex::encode: two lowercase digits per byte, high nibble first.
#[verifier::external_body]
fn hex_encode(bytes: &[u8]) -> (r: String)
    ensures
        r@ == hex_of(bytes@),
{
    hex::encode(bytes)
}

/// Relies on hex::decode: it accepts an even number of hex digits of either
/// case and nothing else, and gives one byte per pair of digits.
#[verifier::external_body]
fn hex_decode(s: &str) -> (r: Option<Vec<u8>>)
    ensures
        r is Some <==> is_hex_string(s@),
        r is Some ==> r->Some_0@ == hex_decoded(s@),
{
    hex::decode(s).ok()
}

/// Appends `bytes` to `out`, leaving out the separator bytes.
fn extend_without_separators(out: &mut Vec<u8>, bytes: &[u8])
    ensures
        final(out)@ == old(out)@ + strip_separators(bytes@),
{
    let ghost start = out@;
    let mut i: usize = 0;
    while i < bytes.len()
        invariant
            0 <= i <= bytes@.len(),
            out@ == start + strip_separators(bytes@.subrange(0, i as int)),
        decreases bytes@.len() - i,
    {
        let b = bytes[i];
        proof {
            assert(bytes@.subrange(0, i + 1).drop_last() =~= bytes@.subrange(0, i as int));
        }
        if b != FIELD_SEPARATOR {
            out.push(b);
            assert(out@ =~= start + strip_separators(bytes@.subrange(0, i + 1)));
        }
        i = i + 1;
    }
    proof {
        assert(bytes@.subrange(0, bytes@.len() as int) =~= bytes@);
    }
}

/// The byte string covered by a token's tag.
pub fn serialize_person_search_result(election_id: i32, username: &str, display_name: &str) -> (r:
    Vec<u8>)
    ensures
        r@ == token_payload(election_id, username@, display_name@),
{
    let u: u32 = election_id as u32;
    let mut out: Vec<u8> = Vec::new();
    out.push((u >> 24u32) as u8);
    out.push((u >> 16u32) as u8);
    out.push((u >> 8u32) as u8);
    out.push(u as u8);
    out.push(FIELD_SEPARATOR);
    extend_without_separators(&mut out, username.as_bytes());
    out.push(FIELD_SEPARATOR);
    extend_without_separators(&mut out, display_name.as_bytes());
    proof {
        assert(out@ =~= token_payload(election_id, username@, display_name@));
    }
    out
}

impl SignedPersonSearchResultDto {
    /// A signed result for `search_result` carrying `tag` as its signature.
    pub fn from_tag(search_result: PersonSearchResult, tag: &[u8]) -> (r: SignedPersonSearchResultDto)
        ensures
            r.username == search_result.username,
            r.display_name == search_result.name,
            r.signature@ == hex_of(tag@),
    {
        SignedPersonSearchResultDto {
            username: search_result.username,
            display_name: search_result.name,
            signature: hex_encode(tag),
        }
    }
}

/// Signs a search result for one election under `signing_key`.
pub fn sign_person_search_result(
    election_id: i32,
    search_result: PersonSearchResult,
    signing_key: &[u8],
) -> (r: SignedPersonSearchResultDto)
    ensures
        r.username == search_result.username,
        r.display_name == search_result.name,
        r.signature@ == token_signature(
            signing_key@,
            election_id,
            search_result.username@,
            search_result.name@,
        ),
        r.signature@.len() == 64,
{
    let payload = serialize_person_search_result(
        election_id,
        search_result.username.as_str(),
        search_result.name.as_str(),
    );
    let tag = hmac_sha256(signing_key, payload.as_slice());
    SignedPersonSearchResultDto::from_tag(search_result, tag.as_slice())
}

/// Signs each search result of a directory query for one election, in
/// order.
pub fn sign_person_search_results(
    election_id: i32,
    results: Vec<PersonSearchResult>,
    signing_key: &[u8],
) -> (r: Vec<SignedPersonSearchResultDto>)
    ensures
        r@.len() == results@.len(),
        forall|i: int|
            0 <= i < r@.len() ==> {
                &&& (#[trigger] r@[i]).username == results@[i].username
                &&& r@[i].display_name == results@[i].name
                &&& r@[i].signature@ == token_signature(
                    signing_key@,
                    election_id,
                    results@[i].username@,
                    results@[i].name@,
                )
            },
{
    let ghost input = results@;
    let mut rest = results;
    let mut out: Vec<SignedPersonSearchResultDto> = Vec::new();
    let mut taken: usize = 0;
    let total = rest.len();
    proof {
        assert(rest@ =~= input.subrange(0, input.len() as int));
    }
    while rest.len() > 0
        invariant
            total == input.len(),
            0 <= taken <= total,
            rest@ == input.subrange(taken as int, input.len() as int),
            out@.len() == taken,
            forall|i: int|
                0 <= i < taken ==> {
                    &&& (#[trigger] out@[i]).username == input[i].username
                    &&& out@[i].display_name == input[i].name
                    &&& out@[i].signature@ == token_signature(
                        signing_key@,
                        election_id,
                        input[i].username@,
                        input[i].name@,
                    )
                },
        decreases rest@.len(),
    {
        let result = rest.remove(0);
        proof {
            assert(result == input[taken as int]);
            assert(rest@ =~= input.subrange(taken + 1, input.len() as int));
        }
        out.push(sign_person_search_result(election_id, result, signing_key));
        taken = taken + 1;
    }
    out
}

/// Whether every character of `s` is a lowercase hex digit.
fn all_lower_hex(s: &str) -> (r: bool)
    ensures
        r == forall|i: int| 0 <= i < s@.len() ==> is_lower_hex_char(#[trigger] s@[i]),
{
    let n = s.unicode_len();
    let mut i: usize = 0;
    while i < n
        invariant
            0 <= i <= n,
            n == s@.len(),
            forall|j: int| 0 <= j < i ==> is_lower_hex_char(#[trigger] s@[j]),
        decreases n - i,
    {
        let c = s.get_char(i);
        if !(('0' <= c && c <= '9') || ('a' <= c && c <= 'f')) {
            return false;
        }
        i = i + 1;
    }
    true
}

/// Checks a signed search result against the election it is used for.
pub fn validate_person_search_result(
    election_id: i32,
    signed_search_result: &SignedPersonSearchResultDto,
    signing_key: &[u8],
) -> (r: Result<(), AppError>)
    ensures
        r is Ok <==> token_valid(
            signing_key@,
            election_id,
            signed_search_result.username@,
            signed_search_result.display_name@,
            signed_search_result.signature@,
        ),
        r is Err ==> r == Err::<(), AppError>(AppError::InvalidPersonSignature),
{
    let payload = serialize_person_search_result(
        election_id,
        signed_search_result.username.as_str(),
        signed_search_result.display_name.as_str(),
    );
    let ghost expected = hmac_sha256_of(
        signing_key@,
        token_payload(
            election_id,
            signed_search_result.username@,
            signed_search_result.display_name@,
        ),
    );
    proof {
        lemma_hex_round_trip(expected);
    }
    if !all_lower_hex(signed_search_result.signature.as_str()) {
        return Err(AppError::InvalidPersonSignature);
    }
    match hex_decode(signed_search_result.signature.as_str()) {
        None => Err(AppError::InvalidPersonSignature),
        Some(tag) => {
            if hmac_sha256_verify(signing_key, payload.as_slice(), tag.as_slice()) {
                proof {
                    lemma_lower_hex_unique(signed_search_result.signature@);
                }
                Ok(())
            } else {
                Err(AppError::InvalidPersonSignature)
            }
        },
    }
}

/// Lowercase hex decodes back to the bytes it encodes.
pub proof fn lemma_hex_round_trip(bytes: Seq<u8>)
    ensures
        is_hex_string(hex_of(bytes)),
        forall|i: int| 0 <= i < hex_of(bytes).len() ==> is_lower_hex_char(#[trigger] hex_of(bytes)[i]),
        hex_decoded(hex_of(bytes)) == bytes,
{
    let h = hex_of(bytes);
    assert forall|i: int| 0 <= i < h.len() implies is_hex_char(#[trigger] h[i]) && is_lower_hex_char(h[i]) by {
        let n = if i % 2 == 0 {
            bytes[i / 2] as int / 16
        } else {
            bytes[i / 2] as int % 16
        };
        assert(0 <= n < 16);
    }
    assert forall|i: int| 0 <= i < bytes.len() implies #[trigger] hex_decoded(h)[i] == bytes[i] by {
        let hi = bytes[i] as int / 16;
        let lo = bytes[i] as int % 16;
        assert((2 * i) / 2 == i);
        assert((2 * i + 1) / 2 == i);
        assert((2 * i) % 2 == 0);
        assert((2 * i + 1) % 2 == 1);
        assert(hex_value(hex_digit(hi)) == hi);
        assert(hex_value(hex_digit(lo)) == lo);
        assert(hi * 16 + lo == bytes[i] as int);
    }
    assert(hex_decoded(h) =~= bytes);
}

/// Lowercase hex is the only lowercase spelling of the bytes it decodes to.
pub proof fn lemma_lower_hex_unique(s: Seq<char>)
    requires
        is_hex_string(s),
        forall|i: int| 0 <= i < s.len() ==> is_lower_hex_char(#[trigger] s[i]),
    ensures
        hex_of(hex_decoded(s)) == s,
{
    let b = hex_decoded(s);
    let h = hex_of(b);
    assert(h.len() == s.len());
    assert forall|k: int| 0 <= k < s.len() implies #[trigger] h[k] == s[k] by {
        let i = k / 2;
        assert(0 <= 2 * i + 1 < s.len());
        let hi = hex_value(s[2 * i]);
        let lo = hex_value(s[2 * i + 1]);
        assert(is_lower_hex_char(s[2 * i]) && is_lower_hex_char(s[2 * i + 1]));
        assert(0 <= hi < 16 && 0 <= lo < 16);
        assert(hex_digit(hi) == s[2 * i]);
        assert(hex_digit(lo) == s[2 * i + 1]);
        assert(b[i] as int == hi * 16 + lo);
        assert((hi * 16 + lo) / 16 == hi);
        assert((hi * 16 + lo) % 16 == lo);
        if k % 2 == 0 {
            assert(k == 2 * i);
        } else {
            assert(k == 2 * i + 1);
        }
    }
    assert(h =~= s);
}

/// A signature made by `sign_person_search_result` is accepted by
/// `validate_person_search_result` for the same election, fields and key.
pub proof fn lemma_signed_token_validates(
    key: Seq<u8>,
    id: i32,
    username: Seq<char>,
    display_name: Seq<char>,
)
    ensures
        token_valid(key, id, username, display_name, token_signature(key, id, username, display_name)),
{
}

/// No separator is left after stripping.
pub proof fn lemma_stripped_has_no_separator(bytes: Seq<u8>)
    ensures
        forall|i: int|
            0 <= i < strip_separators(bytes).len() ==> #[trigger] strip_separators(bytes)[i]
                != FIELD_SEPARATOR,
    decreases bytes.len(),
{
    if bytes.len() > 0 {
        lemma_stripped_has_no_separator(bytes.drop_last());
        let inner = strip_separators(bytes.drop_last());
        if bytes.last() != FIELD_SEPARATOR {
            assert forall|i: int| 0 <= i < inner.len() + 1 implies #[trigger] inner.push(
                bytes.last(),
            )[i] != FIELD_SEPARATOR by {
                if i < inner.len() {
                    assert(inner.push(bytes.last())[i] == inner[i]);
                }
            }
        }
    }
}

/// Two fields joined by the separator split back uniquely when the first
/// field holds no separator.
proof fn lemma_split_at_separator(a: Seq<u8>, b: Seq<u8>, a2: Seq<u8>, b2: Seq<u8>)
    requires
        forall|i: int| 0 <= i < a.len() ==> #[trigger] a[i] != FIELD_SEPARATOR,
        forall|i: int| 0 <= i < a2.len() ==> #[trigger] a2[i] != FIELD_SEPARATOR,
        a + seq![FIELD_SEPARATOR] + b == a2 + seq![FIELD_SEPARATOR] + b2,
    ensures
        a == a2,
        b == b2,
{
    let s = a + seq![FIELD_SEPARATOR] + b;
    let s2 = a2 + seq![FIELD_SEPARATOR] + b2;
    if a.len() < a2.len() {
        assert(s[a.len() as int] == FIELD_SEPARATOR);
        assert(s2[a.len() as int] == a2[a.len() as int]);
    } else if a2.len() < a.len() {
        assert(s2[a2.len() as int] == FIELD_SEPARATOR);
        assert(s[a2.len() as int] == a[a2.len() as int]);
    }
    assert(a =~= s.subrange(0, a.len() as int));
    assert(a2 =~= s2.subrange(0, a2.len() as int));
    assert(b =~= s.subrange(a.len() as int + 1, s.len() as int));
    assert(b2 =~= s2.subrange(a2.len() as int + 1, s2.len() as int));
}

/// The payload determines the election id and both fields (up to removed
/// separators): no two different tokens share a tag by field-boundary
/// confusion.
pub proof fn lemma_payload_injective(
    id: i32,
    username: Seq<char>,
    display_name: Seq<char>,
    id2: i32,
    username2: Seq<char>,
    display_name2: Seq<char>,
)
    requires
        token_payload(id, username, display_name) == token_payload(id2, username2, display_name2),
    ensures
        id == id2,
        strip_separators(encode_utf8(username)) == strip_separators(encode_utf8(username2)),
        strip_separators(encode_utf8(display_name)) == strip_separators(
            encode_utf8(display_name2),
        ),
{
    let p = token_payload(id, username, display_name);
    let p2 = token_payload(id2, username2, display_name2);
    let u = strip_separators(encode_utf8(username));
    let d = strip_separators(encode_utf8(display_name));
    let u2 = strip_separators(encode_utf8(username2));
    let d2 = strip_separators(encode_utf8(display_name2));
    assert(be_bytes(id) =~= p.subrange(0, 4));
    assert(be_bytes(id2) =~= p2.subrange(0, 4));
    let x = id as u32;
    let y = id2 as u32;
    assert(be_bytes(id)[0] == be_bytes(id2)[0]);
    assert(be_bytes(id)[1] == be_bytes(id2)[1]);
    assert(be_bytes(id)[2] == be_bytes(id2)[2]);
    assert(be_bytes(id)[3] == be_bytes(id2)[3]);
    assert(x == y) by (bit_vector)
        requires
            (x >> 24u32) as u8 == (y >> 24u32) as u8,
            (x >> 16u32) as u8 == (y >> 16u32) as u8,
            (x >> 8u32) as u8 == (y >> 8u32) as u8,
            x as u8 == y as u8,
    ;
    assert(id == id2) by (bit_vector)
        requires
            id as u32 == id2 as u32,
    ;
    assert(u + seq![FIELD_SEPARATOR] + d =~= p.subrange(5, p.len() as int));
    assert(u2 + seq![FIELD_SEPARATOR] + d2 =~= p2.subrange(5, p2.len() as int));
    lemma_stripped_has_no_separator(encode_utf8(username));
    lemma_stripped_has_no_separator(encode_utf8(username2));
    lemma_split_at_separator(u, d, u2, d2);
}

} // verus!
