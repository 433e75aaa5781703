//! Handles by which subjects are named to a browser, and the review of which subjects are the
//! same person.
use crate::config;
use crate::digest;
use crate::hex;
use crate::model::{FaceId, FaceIdentityId};
use crate::pool;
use crate::rank;
use crate::scalar::Scalar;
use crate::text;
use vstd::bytes::{
    lemma_auto_spec_u64_to_from_le_bytes, spec_u64_from_le_bytes, spec_u64_to_le_bytes,
    u64_from_le_bytes, u64_to_le_bytes,
};
use vstd::prelude::*;
use vstd::string::StringSliceAdditionalSpecFns;

verus! {

/// Marks the handle of one subject.
pub const IDENTITY_HANDLE_TAG_ANCHOR: u8 = 0x41;

/// Marks the handle of two subjects.
pub const IDENTITY_HANDLE_TAG_PAIR: u8 = 0x50;

/// How many bytes of the keyed hash a handle holds.
pub const IDENTITY_HANDLE_MAC_LEN: usize = 16;

/// How many rows are shown.
pub const IDENTITY_REVIEW_MAX_ROWS: usize = 64;

/// How many candidates a row shows.
pub const IDENTITY_REVIEW_MAX_CANDIDATES_PER_ROW: usize = 12;

/// How many candidates a row shows where it is the only one.
pub const IDENTITY_REVIEW_MAX_FOCUS_CANDIDATES: usize = 64;

/// The eight bytes of a number, the lowest first.
pub open spec fn number_bytes(value: i64) -> Seq<u8> {
    spec_u64_to_le_bytes(value as u64)
}

/// The bytes of several numbers, one after the other.
pub open spec fn numbers_bytes(values: Seq<i64>) -> Seq<u8>
    decreases values.len(),
{
    if values.len() == 0 {
        Seq::empty()
    } else {
        numbers_bytes(values.drop_last()) + number_bytes(values.last())
    }
}

/// What a handle says: its mark and its numbers.
pub open spec fn handle_payload(tag: u8, values: Seq<i64>) -> Seq<u8> {
    seq![tag] + numbers_bytes(values)
}

/// The bytes that show that a handle was made with the key.
pub open spec fn handle_mac(key: Seq<u8>, payload: Seq<u8>) -> Seq<u8> {
    digest::blake3_keyed_hash(key, payload)@.take(IDENTITY_HANDLE_MAC_LEN as int)
}

/// The handle with a mark and numbers.
pub open spec fn handle_text(key: Seq<u8>, tag: u8, values: Seq<i64>) -> Seq<char> {
    let payload = handle_payload(tag, values);
    hex::hex_text(payload + handle_mac(key, payload))
}

/// The number that eight bytes stand for.
pub open spec fn bytes_number(bytes: Seq<u8>) -> i64 {
    spec_u64_from_le_bytes(bytes) as i64
}

/// The numbers that bytes stand for, eight bytes each.
pub open spec fn bytes_numbers(bytes: Seq<u8>) -> Seq<i64> {
    Seq::new(bytes.len() / 8, |i: int| bytes_number(bytes.subrange(8 * i, 8 * i + 8)))
}

/// The numbers of a handle with a mark. There are none where the text is no hexadecimal text, is
/// too short, has another mark, was not made with the key, or is of an odd length.
pub open spec fn handle_values(key: Seq<u8>, tag: u8, raw: Seq<u8>) -> Option<Seq<i64>> {
    match hex::unhex(raw) {
        None => None,
        Some(bytes) => if bytes.len() < IDENTITY_HANDLE_MAC_LEN {
            None
        } else {
            let payload = bytes.take(bytes.len() - IDENTITY_HANDLE_MAC_LEN);
            let mac = bytes.skip(bytes.len() - IDENTITY_HANDLE_MAC_LEN);
            if payload.len() == 0 || payload[0] != tag || handle_mac(key, payload) != mac || (payload.len()
                - 1) % 8 != 0 {
                None
            } else {
                Some(bytes_numbers(payload.skip(1)))
            }
        },
    }
}

/// Makes and reads the handles of one run of the application.
pub struct IdentityHandles {
    pub key: [u8; 32],
}

/// Thirty-two bytes that chance decides, by `rand::random`. Nothing is stated of them: any bytes can
/// come out. The generator fails only where the system gives no randomness.
#[verifier::external_body]
fn random_key() -> (r: [u8; 32]) {
    rand::random()
}

impl IdentityHandles {
    /// Handles under a new key that chance decides. Whatever the key is, its handles name what they
    /// were made for; those of another key do not resolve under it but by chance.
    pub fn fresh() -> (r: Self)
        ensures
            forall|anchor: FaceIdentityId| #[trigger] anchor_resolves(r.key@, anchor),
            forall|anchor: FaceIdentityId, candidate: FaceIdentityId| #[trigger]
                pair_resolves(r.key@, anchor, candidate),
    {
        let r = IdentityHandles { key: random_key() };
        proof {
            assert forall|anchor: FaceIdentityId| #[trigger] anchor_resolves(r.key@, anchor) by {
                handles_name_what_they_were_made_for(r.key@, anchor, anchor);
            }
            assert forall|anchor: FaceIdentityId, candidate: FaceIdentityId| #[trigger]
                pair_resolves(r.key@, anchor, candidate) by {
                handles_name_what_they_were_made_for(r.key@, anchor, candidate);
            }
        }
        r
    }
}

fn slice_of(bytes: &Vec<u8>, from: usize, to: usize) -> (r: Vec<u8>)
    requires
        from <= to <= bytes.len(),
    ensures
        r@ == bytes@.subrange(from as int, to as int),
{
    let mut r: Vec<u8> = Vec::new();
    let mut i: usize = from;
    while i < to
        invariant
            from <= i <= to <= bytes.len(),
            r@ == bytes@.subrange(from as int, i as int),
        decreases to - i,
    {
        r.push(bytes[i]);
        assert(bytes@.subrange(from as int, i + 1) =~= bytes@.subrange(from as int, i as int).push(
            bytes@[i as int],
        ));
        i += 1;
    }
    r
}

fn same_bytes(a: &Vec<u8>, b: &Vec<u8>) -> (r: bool)
    ensures
        r == (a@ == b@),
{
    if a.len() != b.len() {
        return false;
    }
    let mut i: usize = 0;
    while i < a.len()
        invariant
            i <= a.len(),
            a.len() == b.len(),
            forall|j: int| 0 <= j < i ==> #[trigger] a@[j] == b@[j],
        decreases a.len() - i,
    {
        if a[i] != b[i] {
            return false;
        }
        i += 1;
    }
    assert(a@ =~= b@);
    true
}

impl IdentityHandles {
    /// The first bytes of the keyed hash of `payload`.
    fn mac(&self, payload: &Vec<u8>) -> (r: Vec<u8>)
        ensures
            r@ == handle_mac(self.key@, payload@),
    {
        let full = digest::keyed_hash(&self.key, payload.as_slice());
        let mut r: Vec<u8> = Vec::new();
        let mut i: usize = 0;
        while i < IDENTITY_HANDLE_MAC_LEN
            invariant
                i <= IDENTITY_HANDLE_MAC_LEN,
                full@ == digest::blake3_keyed_hash(self.key@, payload@)@,
                r@ == full@.take(i as int),
            decreases IDENTITY_HANDLE_MAC_LEN - i,
        {
            r.push(full[i]);
            assert(full@.take(i + 1) =~= full@.take(i as int).push(full@[i as int]));
            i += 1;
        }
        r
    }

    /// Makes a handle.
    fn mint_identity_handle(&self, tag: u8, values: &Vec<i64>) -> (r: String)
        ensures
            r@ == handle_text(self.key@, tag, values@),
    {
        let mut payload: Vec<u8> = Vec::new();
        payload.push(tag);
        let mut i: usize = 0;
        assert(payload@ =~= handle_payload(tag, values@.take(0)));
        while i < values.len()
            invariant
                i <= values.len(),
                payload@ == handle_payload(tag, values@.take(i as int)),
            decreases values.len() - i,
        {
            let mut bytes = u64_to_le_bytes(values[i] as u64);
            proof {
                assert(values@.take(i + 1).drop_last() =~= values@.take(i as int));
                assert(handle_payload(tag, values@.take(i as int)) + number_bytes(values@[i as int])
                    =~= handle_payload(tag, values@.take(i + 1)));
            }
            payload.append(&mut bytes);
            i += 1;
        }
        assert(values@.take(i as int) =~= values@);
        let mut mac = self.mac(&payload);
        payload.append(&mut mac);
        hex::hex_encode(payload.as_slice())
    }

    /// Reads a handle.
    fn resolve_identity_handle(&self, tag: u8, raw: &str) -> (r: Option<Vec<i64>>)
        ensures
            handle_values(self.key@, tag, raw.spec_bytes()) == match r {
                None => None,
                Some(values) => Some(values@),
            },
    {
        let bytes = match hex::hex_decode(raw) {
            None => {
                return None;
            },
            Some(bytes) => bytes,
        };
        if bytes.len() < IDENTITY_HANDLE_MAC_LEN {
            return None;
        }
        let cut: usize = bytes.len() - IDENTITY_HANDLE_MAC_LEN;
        let payload = slice_of(&bytes, 0, cut);
        let mac = slice_of(&bytes, cut, bytes.len());
        assert(payload@ =~= bytes@.take(cut as int));
        assert(mac@ =~= bytes@.skip(cut as int));
        if payload.len() == 0 || payload[0] != tag {
            return None;
        }
        let expected = self.mac(&payload);
        if !same_bytes(&expected, &mac) {
            return None;
        }
        if (payload.len() - 1) % 8 != 0 {
            return None;
        }
        let ghost tail = payload@.skip(1);
        let mut values: Vec<i64> = Vec::new();
        let mut at: usize = 1;
        while at < payload.len()
            invariant
                1 <= at <= payload.len(),
                tail == payload@.skip(1),
                (payload@.len() - 1) % 8 == 0,
                at - 1 == 8 * values.len(),
                values@ == bytes_numbers(tail).take(values.len() as int),
            decreases payload.len() - at,
        {
            proof {
                assert(payload@.len() - at >= 8) by {
                    let left = payload@.len() - at;
                    assert(left % 8 == 0);
                    assert(left > 0);
                }
            }
            let chunk = slice_of(&payload, at, at + 8);
            proof {
                let k = values.len() as int;
                assert(tail.subrange(8 * k, 8 * k + 8) =~= chunk@);
                assert(bytes_numbers(tail).take(k + 1) =~= bytes_numbers(tail).take(k).push(
                    bytes_number(chunk@),
                ));
            }
            values.push(u64_from_le_bytes(chunk.as_slice()) as i64);
            at += 8;
        }
        assert(bytes_numbers(tail).take(values.len() as int) =~= bytes_numbers(tail));
        Some(values)
    }

    /// The handle of a subject.
    pub fn mint_identity_anchor_handle(&self, identity_id: FaceIdentityId) -> (r: String)
        ensures
            r@ == handle_text(self.key@, IDENTITY_HANDLE_TAG_ANCHOR, seq![identity_id.0]),
    {
        let values: Vec<i64> = vec![identity_id.0];
        assert(values@ =~= seq![identity_id.0]);
        self.mint_identity_handle(IDENTITY_HANDLE_TAG_ANCHOR, &values)
    }

    /// The handle of a subject and a candidate for it.
    pub fn mint_identity_pair_handle(
        &self,
        anchor_identity: FaceIdentityId,
        candidate_identity: FaceIdentityId,
    ) -> (r: String)
        ensures
            r@ == handle_text(
                self.key@,
                IDENTITY_HANDLE_TAG_PAIR,
                seq![anchor_identity.0, candidate_identity.0],
            ),
    {
        let values: Vec<i64> = vec![anchor_identity.0, candidate_identity.0];
        assert(values@ =~= seq![anchor_identity.0, candidate_identity.0]);
        self.mint_identity_handle(IDENTITY_HANDLE_TAG_PAIR, &values)
    }

    /// The subject that a handle names.
    pub fn resolve_identity_anchor_handle(&self, raw: &str) -> (r: Option<FaceIdentityId>)
        ensures
            r == anchor_of(self.key@, raw.spec_bytes()),
    {
        match self.resolve_identity_handle(IDENTITY_HANDLE_TAG_ANCHOR, raw) {
            None => None,
            Some(values) => if values.len() == 1 {
                Some(FaceIdentityId(values[0]))
            } else {
                None
            },
        }
    }

    /// The subject and the candidate that a handle names.
    pub fn resolve_identity_pair_handle(&self, raw: &str) -> (r: Option<(FaceIdentityId, FaceIdentityId)>)
        ensures
            r == pair_of(self.key@, raw.spec_bytes()),
    {
        match self.resolve_identity_handle(IDENTITY_HANDLE_TAG_PAIR, raw) {
            None => None,
            Some(values) => if values.len() == 2 {
                Some((FaceIdentityId(values[0]), FaceIdentityId(values[1])))
            } else {
                None
            },
        }
    }

    /// The address of the review of one subject, where the handle names one.
    pub fn identity_anchor_focus_target(&self, anchor_handle: &str) -> (r: Option<String>)
        ensures
            match r {
                None => anchor_of(self.key@, anchor_handle.spec_bytes()) is None,
                Some(target) => anchor_of(self.key@, anchor_handle.spec_bytes()) is Some && target@
                    == "/identities?anchor="@ + anchor_handle@,
            },
    {
        match self.resolve_identity_anchor_handle(anchor_handle) {
            None => None,
            Some(_) => Some("/identities?anchor=".to_owned().concat(anchor_handle)),
        }
    }

    /// The address of the review of the subject of a pair, where the handle names one.
    pub fn identity_pair_focus_target(&self, pair_handle: &str) -> (r: Option<String>)
        ensures
            match (r, pair_of(self.key@, pair_handle.spec_bytes())) {
                (None, None) => true,
                (Some(target), Some((anchor, candidate))) => target@ == "/identities?anchor="@ + handle_text(
                    self.key@,
                    IDENTITY_HANDLE_TAG_ANCHOR,
                    seq![anchor.0],
                ),
                _ => false,
            },
    {
        match self.resolve_identity_pair_handle(pair_handle) {
            None => None,
            Some((anchor, _)) => Some(
                "/identities?anchor=".to_owned().concat(
                    self.mint_identity_anchor_handle(anchor).as_str(),
                ),
            ),
        }
    }
}

/// The subject that a handle names.
pub open spec fn anchor_of(key: Seq<u8>, raw: Seq<u8>) -> Option<FaceIdentityId> {
    match handle_values(key, IDENTITY_HANDLE_TAG_ANCHOR, raw) {
        Some(values) => if values.len() == 1 {
            Some(FaceIdentityId(values[0]))
        } else {
            None
        },
        None => None,
    }
}

/// The subject and the candidate that a handle names.
pub open spec fn pair_of(key: Seq<u8>, raw: Seq<u8>) -> Option<(FaceIdentityId, FaceIdentityId)> {
    match handle_values(key, IDENTITY_HANDLE_TAG_PAIR, raw) {
        Some(values) => if values.len() == 2 {
            Some((FaceIdentityId(values[0]), FaceIdentityId(values[1])))
        } else {
            None
        },
        None => None,
    }
}

proof fn lemma_numbers_bytes(values: Seq<i64>)
    ensures
        numbers_bytes(values).len() == 8 * values.len(),
        forall|i: int|
            0 <= i < values.len() ==> numbers_bytes(values).subrange(8 * i, 8 * i + 8) == number_bytes(
                #[trigger] values[i],
            ),
    decreases values.len(),
{
    lemma_auto_spec_u64_to_from_le_bytes();
    if values.len() > 0 {
        let shorter = values.drop_last();
        lemma_numbers_bytes(shorter);
        let last = number_bytes(values.last());
        assert(last.len() == 8);
        assert forall|i: int| 0 <= i < values.len() implies numbers_bytes(values).subrange(
            8 * i,
            8 * i + 8,
        ) == number_bytes(#[trigger] values[i]) by {
            if i < shorter.len() {
                assert(numbers_bytes(values).subrange(8 * i, 8 * i + 8) =~= numbers_bytes(
                    shorter,
                ).subrange(8 * i, 8 * i + 8));
                assert(shorter[i] == values[i]);
            } else {
                assert(numbers_bytes(values).subrange(8 * i, 8 * i + 8) =~= last);
            }
        }
    }
}

proof fn lemma_number_round_trip(value: i64)
    ensures
        bytes_number(number_bytes(value)) == value,
{
    lemma_auto_spec_u64_to_from_le_bytes();
    assert((value as u64) as i64 == value) by (bit_vector);
}

proof fn lemma_handle_round_trip(key: Seq<u8>, tag: u8, values: Seq<i64>)
    ensures
        handle_values(key, tag, vstd::utf8::encode_utf8(handle_text(key, tag, values))) == Some(values),
{
    let payload = handle_payload(tag, values);
    let mac = handle_mac(key, payload);
    let bytes = payload + mac;
    hex::reading_gives_back_what_was_written(bytes);
    lemma_numbers_bytes(values);
    assert(bytes.take(bytes.len() - IDENTITY_HANDLE_MAC_LEN) =~= payload);
    assert(bytes.skip(bytes.len() - IDENTITY_HANDLE_MAC_LEN) =~= mac);
    assert(payload.skip(1) =~= numbers_bytes(values));
    assert((payload.len() - 1) % 8 == 0);
    assert(bytes_numbers(numbers_bytes(values)) =~= values) by {
        assert((8 * values.len()) / 8 == values.len());
        assert forall|i: int| 0 <= i < values.len() implies #[trigger] bytes_numbers(
            numbers_bytes(values),
        )[i] == values[i] by {
            lemma_number_round_trip(values[i]);
            assert(numbers_bytes(values).subrange(8 * i, 8 * i + 8) == number_bytes(values[i]));
        }
    }
}

/// The handle of a subject names the subject.
pub open spec fn anchor_resolves(key: Seq<u8>, anchor: FaceIdentityId) -> bool {
    anchor_of(
        key,
        vstd::utf8::encode_utf8(handle_text(key, IDENTITY_HANDLE_TAG_ANCHOR, seq![anchor.0])),
    ) == Some(anchor)
}

/// The handle of a subject with a candidate names both.
pub open spec fn pair_resolves(
    key: Seq<u8>,
    anchor: FaceIdentityId,
    candidate: FaceIdentityId,
) -> bool {
    pair_of(
        key,
        vstd::utf8::encode_utf8(
            handle_text(key, IDENTITY_HANDLE_TAG_PAIR, seq![anchor.0, candidate.0]),
        ),
    ) == Some((anchor, candidate))
}

/// A handle that was made for a subject names that subject, and a handle that was made for a pair
/// names that pair.
pub proof fn handles_name_what_they_were_made_for(
    key: Seq<u8>,
    anchor: FaceIdentityId,
    candidate: FaceIdentityId,
)
    ensures
        anchor_resolves(key, anchor),
        pair_resolves(key, anchor, candidate),
{
    lemma_handle_round_trip(key, IDENTITY_HANDLE_TAG_ANCHOR, seq![anchor.0]);
    lemma_handle_round_trip(key, IDENTITY_HANDLE_TAG_PAIR, seq![anchor.0, candidate.0]);
}

proof fn lemma_bytes_round_trip(bytes: Seq<u8>)
    requires
        bytes.len() % 8 == 0,
    ensures
        numbers_bytes(bytes_numbers(bytes)) == bytes,
    decreases bytes.len(),
{
    let values = bytes_numbers(bytes);
    if bytes.len() > 0 {
        lemma_auto_spec_u64_to_from_le_bytes();
        let cut = bytes.len() - 8;
        let (shorter, last) = (bytes.take(cut), bytes.skip(cut));
        lemma_bytes_round_trip(shorter);
        assert(values.drop_last() =~= bytes_numbers(shorter)) by {
            assert forall|i: int| 0 <= i < values.len() - 1 implies #[trigger] values[i]
                == bytes_numbers(shorter)[i] by {
                assert(bytes.subrange(8 * i, 8 * i + 8) =~= shorter.subrange(8 * i, 8 * i + 8));
            }
        }
        let at = values.len() - 1;
        assert(bytes.subrange(8 * at, 8 * at + 8) =~= last);
        let number = spec_u64_from_le_bytes(last);
        assert((number as i64) as u64 == number) by (bit_vector);
        assert(number_bytes(values.last()) == last);
        assert(bytes =~= shorter + last);
    } else {
        assert(bytes =~= Seq::<u8>::empty());
    }
}

/// A text gives the numbers of a handle exactly where, in either case of its letters, it is the
/// handle that was made for them: only what was made with the key resolves.
pub proof fn only_minted_handles_resolve(key: Seq<u8>, tag: u8, raw: Seq<u8>, values: Seq<i64>)
    ensures
        handle_values(key, tag, raw) == Some(values) <==> hex::lower_bytes(raw)
            == vstd::utf8::encode_utf8(handle_text(key, tag, values)),
{
    let payload = handle_payload(tag, values);
    let mac = handle_mac(key, payload);
    let bytes = payload + mac;
    hex::only_written_text_is_read(raw, bytes);
    lemma_handle_round_trip(key, tag, values);
    hex::reading_gives_back_what_was_written(bytes);
    if handle_values(key, tag, raw) == Some(values) {
        let read = hex::unhex(raw)->0;
        let said = read.take(read.len() - IDENTITY_HANDLE_MAC_LEN);
        lemma_bytes_round_trip(said.skip(1));
        assert(said =~= seq![tag] + said.skip(1));
        assert(said == payload);
        assert(read =~= bytes);
    }
}

/// A text names a subject exactly where, in either case of its letters, it is the handle of that
/// subject; and likewise for a subject with a candidate.
pub proof fn handles_are_resolved_by_their_text(
    key: Seq<u8>,
    raw: Seq<u8>,
    anchor: FaceIdentityId,
    candidate: FaceIdentityId,
)
    ensures
        anchor_of(key, raw) == Some(anchor) <==> hex::lower_bytes(raw) == vstd::utf8::encode_utf8(
            handle_text(key, IDENTITY_HANDLE_TAG_ANCHOR, seq![anchor.0]),
        ),
        pair_of(key, raw) == Some((anchor, candidate)) <==> hex::lower_bytes(raw)
            == vstd::utf8::encode_utf8(
            handle_text(key, IDENTITY_HANDLE_TAG_PAIR, seq![anchor.0, candidate.0]),
        ),
{
    only_minted_handles_resolve(key, IDENTITY_HANDLE_TAG_ANCHOR, raw, seq![anchor.0]);
    only_minted_handles_resolve(key, IDENTITY_HANDLE_TAG_PAIR, raw, seq![anchor.0, candidate.0]);
    if let Some(values) = handle_values(key, IDENTITY_HANDLE_TAG_ANCHOR, raw) {
        if values.len() == 1 {
            assert(values =~= seq![values[0]]);
        }
    }
    if let Some(values) = handle_values(key, IDENTITY_HANDLE_TAG_PAIR, raw) {
        if values.len() == 2 {
            assert(values =~= seq![values[0], values[1]]);
        }
    }
}

/// No text is a handle of a subject and a handle of a pair.
pub proof fn handles_of_subjects_and_pairs_differ(key: Seq<u8>, raw: Seq<u8>)
    ensures
        anchor_of(key, raw) is None || pair_of(key, raw) is None,
{
}

/// What `char::to_lowercase` of std yields for a character outside ASCII.
pub uninterp spec fn lowercase_beyond_ascii(c: char) -> Seq<char>;

/// The lower case of a character, which may be several characters.
pub open spec fn lowercase(c: char) -> Seq<char> {
    if c <= '\u{7f}' {
        seq![config::lower(c)]
    } else {
        lowercase_beyond_ascii(c)
    }
}

/// The character is a capital letter of ASCII.
pub open spec fn is_capital(c: char) -> bool {
    'A' <= c <= 'Z'
}

/// `char::to_lowercase` of std yields the lower case of a character, which may be several
/// characters: for a capital of ASCII its small letter, and for a character that has no lower case,
/// such as the others of ASCII, that character. What it yields for characters outside ASCII is named.
/// A lower case never holds a capital of ASCII.
#[verifier::external_body]
fn to_lowercase(c: char) -> (r: Vec<char>)
    ensures
        c <= '\u{7f}' ==> r@ == seq![config::lower(c)],
        c > '\u{7f}' ==> r@ == lowercase_beyond_ascii(c),
        forall|i: int| 0 <= i < r@.len() ==> !is_capital(#[trigger] r@[i]),
{
    c.to_lowercase().collect()
}

/// The lower case of a text.
pub open spec fn lowercased(name: Seq<char>) -> Seq<char>
    decreases name.len(),
{
    if name.len() == 0 {
        Seq::empty()
    } else {
        lowercased(name.drop_last()) + lowercase(name.last())
    }
}

/// The words of a text, joined by dashes, and whether the text goes on behind the last word.
pub open spec fn dashed(chars: Seq<char>) -> (Seq<char>, bool)
    decreases chars.len(),
{
    if chars.len() == 0 {
        (Seq::empty(), false)
    } else {
        let (slug, pending) = dashed(chars.drop_last());
        if config::is_alphanumeric(chars.last()) {
            if pending && slug.len() > 0 {
                (slug.push('-').push(chars.last()), false)
            } else {
                (slug.push(chars.last()), false)
            }
        } else {
            (slug, pending || slug.len() > 0)
        }
    }
}

/// The words of a text, joined by dashes, or a stand-in where it has none.
pub open spec fn slug_of_lowered(chars: Seq<char>) -> Seq<char> {
    if dashed(chars).0.len() == 0 {
        "subject"@
    } else {
        dashed(chars).0
    }
}

/// The path segment that stands for the name of a subject.
pub open spec fn subject_slug(name: Seq<char>) -> Seq<char> {
    slug_of_lowered(lowercased(name))
}

/// The words of a text in lower case, joined by dashes, or a stand-in where it has none. Words are
/// runs of letters and digits of ASCII.
pub fn slug_of(chars: &Vec<char>) -> (r: String)
    ensures
        r@ == slug_of_lowered(chars@),
{
    let mut slug = String::new();
    let mut pending = false;
    let mut empty = true;
    let mut i: usize = 0;
    while i < chars.len()
        invariant
            i <= chars.len(),
            (slug@, pending) == dashed(chars@.take(i as int)),
            empty == (slug@.len() == 0),
        decreases chars.len() - i,
    {
        assert(chars@.take(i + 1).drop_last() =~= chars@.take(i as int));
        let c = chars[i];
        if config::char_is_alphanumeric(c) {
            if pending && !empty {
                slug.push('-');
            }
            pending = false;
            slug.push(c);
            empty = false;
        } else if !empty {
            pending = true;
        }
        i += 1;
    }
    assert(chars@.take(i as int) =~= chars@);
    if empty {
        "subject".to_owned()
    } else {
        slug
    }
}

/// The text is a path segment: it is not empty, holds small letters, digits and dashes of ASCII only,
/// neither starts nor ends with a dash and has no two dashes in a row.
pub open spec fn is_slug(slug: Seq<char>) -> bool {
    &&& slug.len() > 0
    &&& slug[0] != '-'
    &&& slug.last() != '-'
    &&& forall|i: int|
        0 <= i < slug.len() ==> (#[trigger] slug[i] == '-' || (config::is_alphanumeric(slug[i])
            && !is_capital(slug[i])))
    &&& forall|i: int| 0 <= i < slug.len() - 1 ==> #[trigger] slug[i] != '-' || slug[i + 1] != '-'
}

/// The path segment that stands for the name of a subject. That segment is one that stands for
/// itself.
pub fn slugify_subject_name(name: &str) -> (r: String)
    ensures
        r@ == subject_slug(name@),
        is_slug(r@),
        subject_slug(r@) == r@,
{
    let chars = text::chars_of(name);
    let mut lowered: Vec<char> = Vec::new();
    let mut i: usize = 0;
    while i < chars.len()
        invariant
            i <= chars.len(),
            lowered@ == lowercased(chars@.take(i as int)),
            forall|j: int| 0 <= j < lowered@.len() ==> !is_capital(#[trigger] lowered@[j]),
        decreases chars.len() - i,
    {
        assert(chars@.take(i + 1).drop_last() =~= chars@.take(i as int));
        let mut lower = to_lowercase(chars[i]);
        let ghost (before, more) = (lowered@, lower@);
        lowered.append(&mut lower);
        proof {
            assert forall|j: int| 0 <= j < lowered@.len() implies !is_capital(#[trigger] lowered@[j]) by {
                if j < before.len() {
                    assert(lowered@[j] == before[j]);
                } else {
                    assert(lowered@[j] == more[j - before.len()]);
                }
            }
        }
        i += 1;
    }
    assert(chars@.take(i as int) =~= chars@);
    let slug = slug_of(&lowered);
    proof {
        slugs_are_clean(lowered@);
        a_slug_stands_for_itself(slug@);
    }
    slug
}

/// The segment made of a text in lower case is a path segment.
pub proof fn slugs_are_clean(chars: Seq<char>)
    requires
        forall|j: int| 0 <= j < chars.len() ==> !is_capital(#[trigger] chars[j]),
    ensures
        is_slug(slug_of_lowered(chars)),
{
    lemma_dashed_shape(chars);
    lemma_dashed_chars(chars);
    reveal_strlit("subject");
}

proof fn lemma_dashed_shape(chars: Seq<char>)
    ensures
        ({
            let slug = dashed(chars).0;
            slug.len() > 0 ==> {
                &&& config::is_alphanumeric(slug[0])
                &&& config::is_alphanumeric(slug.last())
                &&& forall|i: int|
                    0 <= i < slug.len() ==> config::is_alphanumeric(#[trigger] slug[i]) || (slug[i]
                        == '-' && i + 1 < slug.len() && config::is_alphanumeric(slug[i + 1]))
            }
        }),
    decreases chars.len(),
{
    if chars.len() > 0 {
        lemma_dashed_shape(chars.drop_last());
        let (slug, pending) = dashed(chars.drop_last());
        if config::is_alphanumeric(chars.last()) {
            let longer = dashed(chars).0;
            assert forall|i: int| 0 <= i < longer.len() implies config::is_alphanumeric(
                #[trigger] longer[i],
            ) || (longer[i] == '-' && i + 1 < longer.len() && config::is_alphanumeric(longer[i + 1])) by {
                if i < slug.len() {
                    assert(longer[i] == slug[i]);
                    if i + 1 < slug.len() {
                        assert(longer[i + 1] == slug[i + 1]);
                    }
                }
            }
        }
    }
}

proof fn lemma_dashed_chars(chars: Seq<char>)
    requires
        forall|j: int| 0 <= j < chars.len() ==> !is_capital(#[trigger] chars[j]),
    ensures
        forall|i: int| 0 <= i < dashed(chars).0.len() ==> !is_capital(#[trigger] dashed(chars).0[i]),
    decreases chars.len(),
{
    if chars.len() > 0 {
        let shorter = chars.drop_last();
        assert forall|j: int| 0 <= j < shorter.len() implies !is_capital(#[trigger] shorter[j]) by {
            assert(shorter[j] == chars[j]);
        }
        lemma_dashed_chars(shorter);
        assert(!is_capital(chars[chars.len() - 1]));
        let (slug, longer) = (dashed(shorter).0, dashed(chars).0);
        assert forall|i: int| 0 <= i < longer.len() implies !is_capital(#[trigger] longer[i]) by {
            if i < slug.len() {
                assert(longer[i] == slug[i]);
            }
        }
    }
}

/// Lower case leaves a path segment as it is.
proof fn lemma_slug_is_lowercase(slug: Seq<char>)
    requires
        forall|i: int|
            0 <= i < slug.len() ==> (#[trigger] slug[i] == '-' || (config::is_alphanumeric(slug[i])
                && !is_capital(slug[i]))),
    ensures
        lowercased(slug) == slug,
    decreases slug.len(),
{
    if slug.len() > 0 {
        let shorter = slug.drop_last();
        assert forall|i: int| 0 <= i < shorter.len() implies (#[trigger] shorter[i] == '-' || (
        config::is_alphanumeric(shorter[i]) && !is_capital(shorter[i]))) by {
            assert(shorter[i] == slug[i]);
        }
        lemma_slug_is_lowercase(shorter);
        let last = slug[slug.len() - 1];
        assert(lowercase(last) =~= seq![last]);
        assert(lowercased(slug) =~= slug);
    } else {
        assert(slug =~= Seq::<char>::empty());
    }
}

/// What the words of the first `n` characters of a path segment come to.
proof fn lemma_dashed_prefix(slug: Seq<char>, n: int)
    requires
        is_slug(slug),
        0 <= n <= slug.len(),
    ensures
        dashed(slug.take(n)) == if n > 0 && slug[n - 1] == '-' {
            (slug.take(n - 1), true)
        } else {
            (slug.take(n), false)
        },
    decreases n,
{
    if n > 0 {
        let prefix = slug.take(n);
        lemma_dashed_prefix(slug, n - 1);
        assert(prefix.drop_last() =~= slug.take(n - 1));
        assert(prefix.last() == slug[n - 1]);
        if slug[n - 1] == '-' {
            assert(n - 1 > 0 && slug[n - 2] != '-');
        } else if n > 1 && slug[n - 2] == '-' {
            assert(n - 2 > 0);
            assert(slug.take(n) =~= slug.take(n - 2).push('-').push(slug[n - 1]));
        } else {
            assert(slug.take(n) =~= slug.take(n - 1).push(slug[n - 1]));
        }
    } else {
        assert(slug.take(0) =~= Seq::<char>::empty());
    }
}

/// A path segment stands for itself: as the name of a subject it gives the same segment.
pub proof fn a_slug_stands_for_itself(slug: Seq<char>)
    requires
        is_slug(slug),
    ensures
        subject_slug(slug) == slug,
{
    lemma_slug_is_lowercase(slug);
    lemma_dashed_prefix(slug, slug.len() as int);
    assert(slug.take(slug.len() as int) =~= slug);
}

/// The words of two texts, a dash between them where both have words.
pub open spec fn joined(left: Seq<char>, right: Seq<char>) -> Seq<char> {
    if left.len() == 0 {
        right
    } else if right.len() == 0 {
        left
    } else {
        left.push('-') + right
    }
}

/// A run of characters of which none is a letter or digit of ASCII.
pub open spec fn is_gap(gap: Seq<char>) -> bool {
    forall|i: int| 0 <= i < gap.len() ==> !config::is_alphanumeric(#[trigger] gap[i])
}

proof fn lemma_dashed_pending(chars: Seq<char>)
    ensures
        dashed(chars).1 ==> dashed(chars).0.len() > 0,
    decreases chars.len(),
{
    if chars.len() > 0 {
        lemma_dashed_pending(chars.drop_last());
    }
}

proof fn lemma_dashed_gap(chars: Seq<char>, gap: Seq<char>)
    requires
        is_gap(gap),
        gap.len() > 0,
    ensures
        dashed(chars + gap) == (dashed(chars).0, dashed(chars).0.len() > 0),
    decreases gap.len(),
{
    lemma_dashed_pending(chars);
    let shorter = gap.drop_last();
    assert((chars + gap).drop_last() =~= chars + shorter);
    assert((chars + gap).last() == gap[gap.len() - 1]);
    if shorter.len() > 0 {
        assert forall|i: int| 0 <= i < shorter.len() implies !config::is_alphanumeric(
            #[trigger] shorter[i],
        ) by {
            assert(shorter[i] == gap[i]);
        }
        lemma_dashed_gap(chars, shorter);
    } else {
        assert(chars + shorter =~= chars);
    }
}

proof fn lemma_dashed_joined(left: Seq<char>, gap: Seq<char>, right: Seq<char>)
    requires
        is_gap(gap),
        gap.len() > 0,
    ensures
        dashed(left + gap + right) == (
            joined(dashed(left).0, dashed(right).0),
            if dashed(right).0.len() == 0 {
                dashed(left).0.len() > 0
            } else {
                dashed(right).1
            },
        ),
    decreases right.len(),
{
    lemma_dashed_gap(left, gap);
    lemma_dashed_pending(right);
    if right.len() == 0 {
        assert(left + gap + right =~= left + gap);
    } else {
        let shorter = right.drop_last();
        lemma_dashed_joined(left, gap, shorter);
        lemma_dashed_pending(shorter);
        assert((left + gap + right).drop_last() =~= left + gap + shorter);
        assert((left + gap + right).last() == right.last());
        assert(dashed(left + gap + right).0 =~= joined(dashed(left).0, dashed(right).0));
    }
}

/// Letters and digits of ASCII with nothing between them stay as they are; where anything else
/// stands between two texts, their words are joined by one dash, and nothing is put before the first
/// word or behind the last.
pub proof fn words_are_joined_by_dashes(
    word: Seq<char>,
    left: Seq<char>,
    gap: Seq<char>,
    right: Seq<char>,
)
    requires
        forall|i: int| 0 <= i < word.len() ==> config::is_alphanumeric(#[trigger] word[i]),
        is_gap(gap),
        gap.len() > 0,
    ensures
        dashed(word).0 == word,
        dashed(left + gap + right).0 == joined(dashed(left).0, dashed(right).0),
{
    lemma_dashed_word(word);
    lemma_dashed_joined(left, gap, right);
}

proof fn lemma_dashed_word(word: Seq<char>)
    requires
        forall|i: int| 0 <= i < word.len() ==> config::is_alphanumeric(#[trigger] word[i]),
    ensures
        dashed(word) == (word, false),
    decreases word.len(),
{
    if word.len() > 0 {
        let shorter = word.drop_last();
        assert forall|i: int| 0 <= i < shorter.len() implies config::is_alphanumeric(
            #[trigger] shorter[i],
        ) by {
            assert(shorter[i] == word[i]);
        }
        lemma_dashed_word(shorter);
        assert(word =~= shorter.push(word[word.len() - 1]));
    } else {
        assert(word =~= Seq::<char>::empty());
    }
}

/// The letters and digits of a path segment are those of the name in lower case, in their order; only
/// a name without any has a stand-in.
pub proof fn slugs_keep_letters_and_digits(chars: Seq<char>)
    ensures
        ({
            let kept = chars.filter(|c: char| config::is_alphanumeric(c));
            if kept.len() == 0 {
                slug_of_lowered(chars) == "subject"@
            } else {
                slug_of_lowered(chars).filter(|c: char| config::is_alphanumeric(c)) == kept
            }
        }),
{
    lemma_dashed_kept(chars);
    lemma_dashed_shape(chars);
    let slug = dashed(chars).0;
    let wanted = |c: char| config::is_alphanumeric(c);
    if slug.len() > 0 {
        reveal(Seq::filter);
        assert(wanted(slug.last()));
        assert(slug.filter(wanted).len() > 0);
    }
}

proof fn lemma_dashed_kept(chars: Seq<char>)
    ensures
        dashed(chars).0.filter(|c: char| config::is_alphanumeric(c)) == chars.filter(
            |c: char| config::is_alphanumeric(c),
        ),
    decreases chars.len(),
{
    reveal(Seq::filter);
    let wanted = |c: char| config::is_alphanumeric(c);
    if chars.len() > 0 {
        let (slug, pending) = dashed(chars.drop_last());
        lemma_dashed_kept(chars.drop_last());
        if wanted(chars.last()) {
            let dash = slug.push('-');
            assert(dash.drop_last() =~= slug);
            assert(!wanted(dash.last()));
            assert(dash.filter(wanted) == slug.filter(wanted));
            assert(slug.push(chars.last()).drop_last() =~= slug);
            assert(dash.push(chars.last()).drop_last() =~= dash);
        }
    }
}

/// Two subjects, the smaller first.
pub open spec fn canonical(left: FaceIdentityId, right: FaceIdentityId) -> (
    FaceIdentityId,
    FaceIdentityId,
) {
    if left.0 <= right.0 {
        (left, right)
    } else {
        (right, left)
    }
}

/// Two subjects, the smaller first.
pub fn canonical_identity_pair(left: FaceIdentityId, right: FaceIdentityId) -> (r: (
    FaceIdentityId,
    FaceIdentityId,
))
    ensures
        r == canonical(left, right),
        r == canonical(right, left),
{
    if left.0 <= right.0 {
        (left, right)
    } else {
        (right, left)
    }
}

/// The faces of one subject, by their positions.
#[derive(Debug)]
pub struct FaceGroup {
    pub identity_id: FaceIdentityId,
    pub members: Vec<usize>,
}

/// `groups` are the faces by subject: the subjects in ascending order, each with the positions of
/// its faces in ascending order.
pub open spec fn are_groups(groups: Seq<FaceGroup>, owners: Seq<FaceIdentityId>) -> bool {
    &&& forall|i: int, j: int|
        0 <= i < j < groups.len() ==> (#[trigger] groups[i]).identity_id.0 < (#[trigger] groups[j]).identity_id.0
    &&& forall|i: int|
        0 <= i < groups.len() ==> (#[trigger] groups[i]).members@.len() > 0 && pool::selects(
            groups[i].members@,
            owners.len() as int,
            |k: int| owners[k] == groups[i].identity_id,
        )
    &&& forall|k: int|
        0 <= k < owners.len() ==> exists|i: int|
            0 <= i < groups.len() && (#[trigger] groups[i]).identity_id == #[trigger] owners[k]
}

/// The faces that belong to a subject.
fn members_of(owners: &Vec<FaceIdentityId>, identity_id: FaceIdentityId) -> (r: Vec<usize>)
    ensures
        pool::selects(r@, owners@.len() as int, |k: int| owners@[k] == identity_id),
{
    let mut flags: Vec<bool> = Vec::new();
    let mut i: usize = 0;
    while i < owners.len()
        invariant
            i <= owners.len(),
            flags.len() == i,
            forall|k: int| 0 <= k < i ==> #[trigger] flags@[k] == (owners@[k] == identity_id),
        decreases owners.len() - i,
    {
        flags.push(owners[i].0 == identity_id.0);
        i += 1;
    }
    let r = pool::select(&flags);
    proof {
        pool::lemma_selects_by_flags(r@, flags@, |k: int| owners@[k] == identity_id);
    }
    r
}

/// The faces by subject; `owners` holds the subject of each face.
pub fn group_faces(owners: &Vec<FaceIdentityId>) -> (groups: Vec<FaceGroup>)
    ensures
        are_groups(groups@, owners@),
{
    let mut keys: Vec<Vec<i128>> = Vec::new();
    let mut i: usize = 0;
    while i < owners.len()
        invariant
            i <= owners.len(),
            keys.len() == i,
            forall|j: int| 0 <= j < i ==> (#[trigger] keys@[j])@ == seq![owners@[j].0 as i128],
        decreases owners.len() - i,
    {
        let key = vec![owners[i].0 as i128];
        assert(key@ =~= seq![owners@[i as int].0 as i128]);
        keys.push(key);
        i += 1;
    }
    let order = rank::ranking(&keys);
    let ghost kv = rank::key_views(keys@);
    let mut groups: Vec<FaceGroup> = Vec::new();
    let mut at: usize = 0;
    while at < order.len()
        invariant
            at <= order.len(),
            order.len() == owners.len(),
            kv.len() == owners.len(),
            rank::is_ranking(order@, kv),
            forall|j: int| 0 <= j < kv.len() ==> #[trigger] kv[j] == seq![owners@[j].0 as i128],
            forall|a: int, b: int|
                0 <= a < b < groups.len() ==> (#[trigger] groups@[a]).identity_id.0 < (
                #[trigger] groups@[b]).identity_id.0,
            forall|a: int|
                0 <= a < groups.len() ==> (#[trigger] groups@[a]).members@.len() > 0 && pool::selects(
                    groups@[a].members@,
                    owners@.len() as int,
                    |k: int| owners@[k] == groups@[a].identity_id,
                ),
            groups.len() == 0 ==> at == 0,
            groups.len() > 0 ==> at > 0 && groups@.last().identity_id == owners@[order@[at - 1] as int],
            forall|j: int|
                0 <= j < at ==> exists|a: int|
                    0 <= a < groups.len() && (#[trigger] groups@[a]).identity_id
                        == owners@[#[trigger] order@[j] as int],
        decreases order.len() - at,
    {
        let owner = owners[order[at]];
        let fresh = groups.len() == 0 || groups[groups.len() - 1].identity_id.0 != owner.0;
        let ghost before = groups@;
        proof {
            if at > 0 {
                assert(rank::precedes(kv, order@[at - 1] as int, order@[at as int] as int));
                assert(kv[order@[at - 1] as int] == seq![owners@[order@[at - 1] as int].0 as i128]);
                assert(kv[order@[at as int] as int] == seq![owner.0 as i128]);
                lemma_single_key(owners@[order@[at - 1] as int].0, owner.0);
            }
        }
        if fresh {
            let members = members_of(owners, owner);
            proof {
                assert(owners@[order@[at as int] as int] == owner);
                assert(members@.contains(order@[at as int]));
                assert(members@.len() > 0);
            }
            groups.push(FaceGroup { identity_id: owner, members });
        }
        proof {
            assert forall|j: int| 0 <= j < at + 1 implies exists|a: int|
                0 <= a < groups.len() && (#[trigger] groups@[a]).identity_id
                    == owners@[#[trigger] order@[j] as int] by {
                if j < at {
                    let a = choose|a: int|
                        0 <= a < before.len() && (#[trigger] before[a]).identity_id
                            == owners@[order@[j] as int];
                    assert(groups@[a].identity_id == owners@[order@[j] as int]);
                } else {
                    assert(groups@[groups.len() - 1].identity_id == owner);
                }
            }
        }
        at += 1;
    }
    proof {
        assert forall|k: int| 0 <= k < owners.len() implies exists|a: int|
            0 <= a < groups.len() && (#[trigger] groups@[a]).identity_id == #[trigger] owners@[k] by {
            assert(order@.contains(k as usize));
            let j = choose|j: int| 0 <= j < order.len() && order@[j] == k as usize;
            let a = choose|a: int|
                0 <= a < groups.len() && (#[trigger] groups@[a]).identity_id
                    == owners@[order@[j] as int];
            assert(groups@[a].identity_id == owners@[k]);
        }
    }
    groups
}

proof fn lemma_single_key(a: i64, b: i64)
    ensures
        rank::lex_lt(seq![a as i128], seq![b as i128]) == (a < b),
        (seq![a as i128] == seq![b as i128]) == (a == b),
{
    let x = seq![a as i128];
    let y = seq![b as i128];
    assert(x[0] == a as i128 && y[0] == b as i128);
    reveal_with_fuel(rank::lex_lt, 2);
    assert(x.skip(1).len() == 0 && y.skip(1).len() == 0);
}

/// The face that stands for a subject: the one most like the subject, of equally alike ones the
/// newest. Each face comes with how alike it is.
pub fn representative_face(faces: &Vec<(Scalar, FaceId)>) -> (r: Option<usize>)
    ensures
        match r {
            None => faces@.len() == 0,
            Some(at) => rank::is_last_maximum(at as int, likeness_keys(faces@)),
        },
{
    let mut keys: Vec<Vec<i128>> = Vec::new();
    let mut i: usize = 0;
    while i < faces.len()
        invariant
            i <= faces.len(),
            keys.len() == i,
            forall|j: int| 0 <= j < i ==> (#[trigger] keys@[j])@ == likeness_key(faces@[j]),
        decreases faces.len() - i,
    {
        let (likeness, face_id) = faces[i];
        let key = vec![likeness.place_key(), face_id.0 as i128];
        assert(key@ =~= likeness_key(faces@[i as int]));
        keys.push(key);
        i += 1;
    }
    assert(rank::key_views(keys@) =~= likeness_keys(faces@));
    rank::last_maximum(&keys)
}

/// By what the faces of a subject are compared.
pub open spec fn likeness_key(face: (Scalar, FaceId)) -> Seq<i128> {
    seq![face.0.place() as i128, face.1.0 as i128]
}

/// The keys of all faces of a subject.
pub open spec fn likeness_keys(faces: Seq<(Scalar, FaceId)>) -> Seq<Seq<i128>> {
    faces.map_values(|face: (Scalar, FaceId)| likeness_key(face))
}

/// What is shown of the review.
#[derive(Debug, Clone, Copy, PartialEq, Eq, Structural)]
pub struct IdentityReviewStatus {
    pub total_subjects: usize,
    pub named_subjects: usize,
    pub active_rows: usize,
    pub threshold_percent: u8,
}

/// A subject of the review.
#[derive(Debug)]
pub struct ReviewSubject {
    pub identity_id: FaceIdentityId,
    pub name: Option<String>,
    pub representative_face: FaceId,
    pub member_count: usize,
}

/// A subject that was found close to another.
#[derive(Debug, Clone, Copy, PartialEq, Eq, Structural)]
pub struct FoundNeighbor {
    pub candidate_id: FaceIdentityId,
    pub similarity: Scalar,
}

/// A candidate for being the same person, by its position among the subjects.
#[derive(Debug, Clone, Copy, PartialEq, Eq, Structural)]
pub struct IdentityReviewEdge {
    pub candidate_index: usize,
    pub similarity: Scalar,
}

/// The first position of a subject, or the number of subjects where it is not among them.
pub open spec fn subject_position(subjects: Seq<ReviewSubject>, id: FaceIdentityId) -> int
    decreases subjects.len(),
{
    if subjects.len() == 0 || subjects[0].identity_id == id {
        0
    } else {
        1 + subject_position(subjects.skip(1), id)
    }
}

fn find_subject(subjects: &Vec<ReviewSubject>, id: FaceIdentityId) -> (r: Option<usize>)
    ensures
        match r {
            None => subject_position(subjects@, id) == subjects@.len(),
            Some(at) => at < subjects@.len() && at == subject_position(subjects@, id)
                && subjects@[at as int].identity_id == id,
        },
{
    let mut i: usize = 0;
    assert(subjects@.skip(0) =~= subjects@);
    while i < subjects.len()
        invariant
            i <= subjects.len(),
            subject_position(subjects@, id) == i + subject_position(subjects@.skip(i as int), id),
        decreases subjects.len() - i,
    {
        assert(subjects@.skip(i as int).skip(1) =~= subjects@.skip(i + 1));
        if subjects[i].identity_id.0 == id.0 {
            return Some(i);
        }
        i += 1;
    }
    None
}

/// A subject that was found close to `anchor` is a candidate: it is another, nameless subject,
/// nobody said that the two differ, and it is alike enough.
pub open spec fn is_candidate(
    subjects: Seq<ReviewSubject>,
    anchor: FaceIdentityId,
    found: FoundNeighbor,
    vetoes: Seq<(FaceIdentityId, FaceIdentityId)>,
    threshold: Scalar,
) -> bool {
    let at = subject_position(subjects, found.candidate_id);
    &&& found.candidate_id != anchor
    &&& at < subjects.len()
    &&& subjects[at].name is None
    &&& !vetoes.contains(canonical(anchor, found.candidate_id))
    &&& !found.similarity.below(threshold)
}

/// By what candidates are ordered: the most alike first, then by name.
pub open spec fn candidate_key(found: FoundNeighbor) -> Seq<i128> {
    let fallen: int = 0 - found.similarity.place();
    seq![fallen as i128, found.candidate_id.0 as i128]
}

/// The keys of the subjects at `kept`.
pub open spec fn candidate_keys(found: Seq<FoundNeighbor>, kept: Seq<usize>) -> Seq<Seq<i128>> {
    Seq::new(kept.len(), |i: int| candidate_key(found[kept[i] as int]))
}

/// `edges` are the candidates among the subjects that were found, the most alike first.
pub open spec fn are_edges(
    edges: Seq<IdentityReviewEdge>,
    subjects: Seq<ReviewSubject>,
    anchor: FaceIdentityId,
    found: Seq<FoundNeighbor>,
    vetoes: Seq<(FaceIdentityId, FaceIdentityId)>,
    threshold: Scalar,
) -> bool {
    exists|kept: Seq<usize>, order: Seq<usize>|
        {
            &&& pool::selects(
                kept,
                found.len() as int,
                |i: int| is_candidate(subjects, anchor, found[i], vetoes, threshold),
            )
            &&& #[trigger] rank::is_ranking(order, candidate_keys(found, kept))
            &&& edges == order.map_values(
                |k: usize|
                    IdentityReviewEdge {
                        candidate_index: subject_position(
                            subjects,
                            found[kept[k as int] as int].candidate_id,
                        ) as usize,
                        similarity: found[kept[k as int] as int].similarity,
                    },
            )
        }
}

fn pair_listed(pairs: &Vec<(FaceIdentityId, FaceIdentityId)>, pair: (FaceIdentityId, FaceIdentityId)) -> (r:
    bool)
    ensures
        r == pairs@.contains(pair),
{
    let mut i: usize = 0;
    while i < pairs.len()
        invariant
            i <= pairs.len(),
            forall|j: int| 0 <= j < i ==> #[trigger] pairs@[j] != pair,
        decreases pairs.len() - i,
    {
        let (a, b) = pairs[i];
        if a.0 == pair.0.0 && b.0 == pair.1.0 {
            assert(pairs@[i as int] == pair);
            return true;
        }
        i += 1;
    }
    false
}

/// The candidates for `anchor` among the subjects that were found close to it.
pub fn candidate_edges(
    subjects: &Vec<ReviewSubject>,
    anchor: FaceIdentityId,
    found: &Vec<FoundNeighbor>,
    vetoes: &Vec<(FaceIdentityId, FaceIdentityId)>,
    threshold: Scalar,
) -> (edges: Vec<IdentityReviewEdge>)
    ensures
        are_edges(edges@, subjects@, anchor, found@, vetoes@, threshold),
        forall|i: int| 0 <= i < edges@.len() ==> (#[trigger] edges@[i]).candidate_index < subjects@.len(),
{
    let mut flags: Vec<bool> = Vec::new();
    let mut i: usize = 0;
    while i < found.len()
        invariant
            i <= found.len(),
            flags.len() == i,
            forall|j: int|
                0 <= j < i ==> #[trigger] flags@[j] == is_candidate(
                    subjects@,
                    anchor,
                    found@[j],
                    vetoes@,
                    threshold,
                ),
        decreases found.len() - i,
    {
        let probe = found[i];
        let keep = probe.candidate_id.0 != anchor.0 && match find_subject(subjects, probe.candidate_id) {
            None => false,
            Some(at) => subjects[at].name.is_none() && !pair_listed(
                vetoes,
                canonical_identity_pair(anchor, probe.candidate_id),
            ) && !probe.similarity.is_below(threshold),
        };
        flags.push(keep);
        i += 1;
    }
    let kept = pool::select(&flags);
    proof {
        pool::lemma_selects_by_flags(
            kept@,
            flags@,
            |j: int| is_candidate(subjects@, anchor, found@[j], vetoes@, threshold),
        );
    }
    let mut keys: Vec<Vec<i128>> = Vec::new();
    let mut k: usize = 0;
    while k < kept.len()
        invariant
            k <= kept.len(),
            keys.len() == k,
            forall|j: int| 0 <= j < kept.len() ==> (#[trigger] kept@[j]) < found.len(),
            forall|j: int| 0 <= j < k ==> (#[trigger] keys@[j])@ == candidate_key(found@[kept@[j] as int]),
        decreases kept.len() - k,
    {
        let probe = found[kept[k]];
        let fallen: i128 = 0 - probe.similarity.place_key();
        let key = vec![fallen, probe.candidate_id.0 as i128];
        assert(key@ =~= candidate_key(probe));
        keys.push(key);
        k += 1;
    }
    assert(rank::key_views(keys@) =~= candidate_keys(found@, kept@));
    let order = rank::ranking(&keys);
    let mut edges: Vec<IdentityReviewEdge> = Vec::new();
    let mut m: usize = 0;
    while m < order.len()
        invariant
            m <= order.len(),
            edges.len() == m,
            order.len() == kept.len(),
            forall|j: int| 0 <= j < order.len() ==> (#[trigger] order@[j]) < kept.len(),
            pool::selects(
                kept@,
                found@.len() as int,
                |j: int| is_candidate(subjects@, anchor, found@[j], vetoes@, threshold),
            ),
            forall|j: int|
                0 <= j < m ==> (#[trigger] edges@[j]).candidate_index < subjects.len() && edges@[j] == (
                IdentityReviewEdge {
                    candidate_index: subject_position(
                        subjects@,
                        found@[kept@[order@[j] as int] as int].candidate_id,
                    ) as usize,
                    similarity: found@[kept@[order@[j] as int] as int].similarity,
                }),
        decreases order.len() - m,
    {
        let probe = found[kept[order[m]]];
        proof {
            let keep = |j: int| is_candidate(subjects@, anchor, found@[j], vetoes@, threshold);
            assert(keep(kept@[order@[m as int] as int] as int));
        }
        match find_subject(subjects, probe.candidate_id) {
            None => {},
            Some(at) => {
                edges.push(IdentityReviewEdge { candidate_index: at, similarity: probe.similarity });
            },
        }
        m += 1;
    }
    assert(edges@ =~= order@.map_values(
        |p: usize|
            IdentityReviewEdge {
                candidate_index: subject_position(
                    subjects@,
                    found@[kept@[p as int] as int].candidate_id,
                ) as usize,
                similarity: found@[kept@[p as int] as int].similarity,
            },
    ));
    edges
}

/// What has been handed out while rows are made: the candidates that were offered, and the rows,
/// each as its anchor with its candidates.
#[verifier::ext_equal]
pub struct Claims {
    pub offered: Set<usize>,
    pub rows: Seq<(usize, Seq<IdentityReviewEdge>)>,
}

/// The candidates that were not offered yet.
pub open spec fn unoffered(edges: Seq<IdentityReviewEdge>, offered: Set<usize>) -> Seq<IdentityReviewEdge> {
    edges.filter(|edge: IdentityReviewEdge| !offered.contains(edge.candidate_index))
}

/// The positions of candidates.
pub open spec fn candidates_of(edges: Seq<IdentityReviewEdge>) -> Set<usize> {
    edges.map_values(|edge: IdentityReviewEdge| edge.candidate_index).to_set()
}

/// The rows of the first `n` anchors of `order`: an anchor that was offered as a candidate gets no
/// row, a candidate is offered once, and an anchor without candidates gets no row.
pub open spec fn claims(order: Seq<usize>, sets: Seq<Seq<IdentityReviewEdge>>, n: int) -> Claims
    decreases n,
{
    if n <= 0 {
        Claims { offered: Set::empty(), rows: Seq::empty() }
    } else {
        let before = claims(order, sets, n - 1);
        let anchor = order[n - 1];
        let edges = unoffered(sets[anchor as int], before.offered);
        if before.offered.contains(anchor) || edges.len() == 0 {
            before
        } else {
            Claims {
                offered: before.offered.union(candidates_of(edges)),
                rows: before.rows.push((anchor, edges)),
            }
        }
    }
}

/// No candidate is offered in two rows, and no row is about a subject that an earlier row offers.
pub proof fn candidates_are_offered_once(
    order: Seq<usize>,
    sets: Seq<Seq<IdentityReviewEdge>>,
    n: int,
    first: int,
    second: int,
    candidate: usize,
)
    requires
        0 <= first < second < claims(order, sets, n).rows.len(),
        candidates_of(claims(order, sets, n).rows[first].1).contains(candidate),
    ensures
        !candidates_of(claims(order, sets, n).rows[second].1).contains(candidate),
        claims(order, sets, n).rows[second].0 != candidate,
    decreases n,
{
    if n > 0 {
        let before = claims(order, sets, n - 1);
        let after = claims(order, sets, n);
        if after.rows.len() > before.rows.len() && second == before.rows.len() {
            lemma_offered_covers_rows(order, sets, n - 1, first);
            assert(after.rows[first] == before.rows[first]);
            assert(before.offered.contains(candidate));
            let anchor = order[n - 1];
            let edges = unoffered(sets[anchor as int], before.offered);
            if candidates_of(edges).contains(candidate) {
                let names = edges.map_values(|edge: IdentityReviewEdge| edge.candidate_index);
                let i = choose|i: int| 0 <= i < names.len() && names[i] == candidate;
                sets[anchor as int].lemma_filter_pred(
                    |edge: IdentityReviewEdge| !before.offered.contains(edge.candidate_index),
                    i,
                );
                assert(edges[i].candidate_index == candidate);
            }
        } else {
            assert(after.rows[first] == before.rows[first]);
            assert(after.rows[second] == before.rows[second]);
            candidates_are_offered_once(order, sets, n - 1, first, second, candidate);
        }
    }
}

proof fn lemma_offered_covers_rows(
    order: Seq<usize>,
    sets: Seq<Seq<IdentityReviewEdge>>,
    n: int,
    row: int,
)
    requires
        0 <= row < claims(order, sets, n).rows.len(),
    ensures
        candidates_of(claims(order, sets, n).rows[row].1).subset_of(claims(order, sets, n).offered),
    decreases n,
{
    if n > 0 {
        let before = claims(order, sets, n - 1);
        let after = claims(order, sets, n);
        if after.rows.len() > before.rows.len() && row == before.rows.len() {
        } else {
            assert(after.rows[row] == before.rows[row]);
            lemma_offered_covers_rows(order, sets, n - 1, row);
        }
    }
}

/// A row before it is shown: its anchor and its candidates.
#[derive(Debug)]
pub struct DraftRow {
    pub anchor: usize,
    pub edges: Vec<IdentityReviewEdge>,
}

/// The rows that `drafts` holds.
pub open spec fn draft_rows(drafts: Seq<DraftRow>) -> Seq<(usize, Seq<IdentityReviewEdge>)> {
    drafts.map_values(|draft: DraftRow| (draft.anchor, draft.edges@))
}

/// The candidates of each anchor.
pub open spec fn edge_sets(sets: Seq<Vec<IdentityReviewEdge>>) -> Seq<Seq<IdentityReviewEdge>> {
    sets.map_values(|edges: Vec<IdentityReviewEdge>| edges@)
}

/// All candidates are among `n` subjects.
pub open spec fn edges_within(sets: Seq<Vec<IdentityReviewEdge>>, n: int) -> bool {
    forall|i: int, k: int|
        0 <= i < sets.len() && 0 <= k < sets[i]@.len() ==> (#[trigger] sets[i]@[k]).candidate_index < n
}

fn unoffered_edges(edges: &Vec<IdentityReviewEdge>, flags: &Vec<bool>, Ghost(offered): Ghost<Set<usize>>) -> (r:
    Vec<IdentityReviewEdge>)
    requires
        forall|k: int| 0 <= k < edges.len() ==> (#[trigger] edges@[k]).candidate_index < flags.len(),
        forall|k: usize| k < flags.len() ==> flags@[k as int] == #[trigger] offered.contains(k),
    ensures
        r@ == unoffered(edges@, offered),
{
    let mut r: Vec<IdentityReviewEdge> = Vec::new();
    let ghost keep = |edge: IdentityReviewEdge| !offered.contains(edge.candidate_index);
    let mut i: usize = 0;
    proof {
        reveal(Seq::filter);
        assert(edges@.take(0).filter(keep) =~= Seq::<IdentityReviewEdge>::empty());
    }
    while i < edges.len()
        invariant
            i <= edges.len(),
            keep == (|edge: IdentityReviewEdge| !offered.contains(edge.candidate_index)),
            forall|k: int| 0 <= k < edges.len() ==> (#[trigger] edges@[k]).candidate_index < flags.len(),
            forall|k: usize| k < flags.len() ==> flags@[k as int] == #[trigger] offered.contains(k),
            r@ == edges@.take(i as int).filter(keep),
        decreases edges.len() - i,
    {
        proof {
            reveal(Seq::filter);
            assert(edges@.take(i + 1).drop_last() =~= edges@.take(i as int));
            assert(offered.contains(edges@[i as int].candidate_index) == flags@[edges@[i as int].candidate_index as int]);
        }
        if !flags[edges[i].candidate_index] {
            r.push(edges[i]);
        }
        i += 1;
    }
    assert(edges@.take(i as int) =~= edges@);
    r
}

fn offer_edges(flags: &mut Vec<bool>, edges: &Vec<IdentityReviewEdge>, Ghost(offered): Ghost<Set<usize>>)
    requires
        forall|k: int| 0 <= k < edges.len() ==> (#[trigger] edges@[k]).candidate_index < old(flags).len(),
        forall|k: usize| k < old(flags).len() ==> old(flags)@[k as int] == #[trigger] offered.contains(k),
    ensures
        final(flags).len() == old(flags).len(),
        forall|k: usize|
            k < final(flags).len() ==> final(flags)@[k as int] == #[trigger] offered.union(
                candidates_of(edges@),
            ).contains(k),
{
    let ghost names = edges@.map_values(|edge: IdentityReviewEdge| edge.candidate_index);
    let size: usize = flags.len();
    proof {
        assert forall|k: int| 0 <= k < size implies #[trigger] flags@[k] == (offered.contains(
            k as usize,
        ) || names.take(0).contains(k as usize)) by {
            assert(flags@[k] == offered.contains(k as usize));
        }
    }
    let mut i: usize = 0;
    while i < edges.len()
        invariant
            i <= edges.len(),
            flags.len() == size,
            names == edges@.map_values(|edge: IdentityReviewEdge| edge.candidate_index),
            forall|k: int| 0 <= k < edges.len() ==> (#[trigger] edges@[k]).candidate_index < size,
            forall|k: int|
                0 <= k < size ==> #[trigger] flags@[k] == (offered.contains(k as usize) || names.take(
                    i as int,
                ).contains(k as usize)),
        decreases edges.len() - i,
    {
        let at = edges[i].candidate_index;
        let ghost before = flags@;
        flags.set(at, true);
        let ghost shorter = names.take(i as int);
        let ghost longer = names.take(i + 1);
        proof {
            assert forall|k: int| 0 <= k < size implies #[trigger] flags@[k] == (offered.contains(
                k as usize,
            ) || longer.contains(k as usize)) by {
                assert(before[k] == (offered.contains(k as usize) || shorter.contains(k as usize)));
                if shorter.contains(k as usize) {
                    let p = choose|p: int| 0 <= p < shorter.len() && shorter[p] == k as usize;
                    assert(longer[p] == k as usize);
                }
                if k == at {
                    assert(longer[i as int] == k as usize);
                }
                if longer.contains(k as usize) && k != at {
                    let p = choose|p: int| 0 <= p < longer.len() && longer[p] == k as usize;
                    assert(shorter[p] == k as usize);
                }
            }
        }
        i += 1;
        assert(names.take(i as int) == longer);
    }
    proof {
        assert(names.take(i as int) =~= names);
        assert forall|k: usize| k < flags.len() implies flags@[k as int] == #[trigger] offered.union(
            candidates_of(edges@),
        ).contains(k) by {
            assert(flags@[k as int] == (offered.contains(k) || names.contains(k)));
        }
    }
}

/// Makes the rows of the anchors in `order`.
pub fn claim_rows(order: &Vec<usize>, sets: &Vec<Vec<IdentityReviewEdge>>) -> (drafts: Vec<DraftRow>)
    requires
        forall|i: int| 0 <= i < order.len() ==> (#[trigger] order@[i]) < sets.len(),
        edges_within(sets@, sets@.len() as int),
    ensures
        draft_rows(drafts@) == claims(order@, edge_sets(sets@), order@.len() as int).rows,
{
    let ghost models = edge_sets(sets@);
    let n: usize = sets.len();
    let mut flags: Vec<bool> = Vec::new();
    let mut f: usize = 0;
    while f < n
        invariant
            f <= n,
            flags.len() == f,
            forall|k: int| 0 <= k < f ==> !#[trigger] flags@[k],
        decreases n - f,
    {
        flags.push(false);
        f += 1;
    }
    let mut drafts: Vec<DraftRow> = Vec::new();
    let mut i: usize = 0;
    assert(draft_rows(drafts@) =~= claims(order@, models, 0).rows);
    while i < order.len()
        invariant
            i <= order.len(),
            n == sets.len(),
            models == edge_sets(sets@),
            flags.len() == n,
            forall|j: int| 0 <= j < order.len() ==> (#[trigger] order@[j]) < sets.len(),
            edges_within(sets@, sets@.len() as int),
            forall|k: usize|
                k < n ==> flags@[k as int] == #[trigger] claims(order@, models, i as int).offered.contains(k),
            draft_rows(drafts@) == claims(order@, models, i as int).rows,
        decreases order.len() - i,
    {
        let anchor = order[i];
        let ghost before = claims(order@, models, i as int);
        proof {
            assert(models[anchor as int] == sets@[anchor as int]@);
            assert(before.offered.contains(anchor) == flags@[anchor as int]);
        }
        if !flags[anchor] {
            let edges = unoffered_edges(&sets[anchor], &flags, Ghost(before.offered));
            if edges.len() > 0 {
                proof {
                    assert forall|k: int| 0 <= k < edges.len() implies (#[trigger] edges@[k]).candidate_index
                        < flags.len() by {
                        let keep = |edge: IdentityReviewEdge| !before.offered.contains(edge.candidate_index);
                        lemma_filter_member(sets@[anchor as int]@, keep, k);
                        let j = choose|j: int|
                            0 <= j < sets@[anchor as int]@.len() && sets@[anchor as int]@[j] == edges@[k];
                        assert(sets@[anchor as int]@[j].candidate_index < n);
                    }
                }
                offer_edges(&mut flags, &edges, Ghost(before.offered));
                let ghost held = draft_rows(drafts@);
                let ghost row = (anchor, edges@);
                drafts.push(DraftRow { anchor, edges });
                assert(draft_rows(drafts@) =~= held.push(row));
            }
        }
        i += 1;
    }
    drafts
}

proof fn lemma_filter_member<T>(s: Seq<T>, keep: spec_fn(T) -> bool, i: int)
    requires
        0 <= i < s.filter(keep).len(),
    ensures
        s.contains(s.filter(keep)[i]),
    decreases s.len(),
{
    reveal(Seq::filter);
    if s.len() > 0 {
        let shorter = s.drop_last();
        if i < shorter.filter(keep).len() {
            lemma_filter_member(shorter, keep, i);
            let j = choose|j: int| 0 <= j < shorter.len() && shorter[j] == shorter.filter(keep)[i];
            assert(s[j] == s.filter(keep)[i]);
        } else {
            assert(s[s.len() - 1] == s.filter(keep)[i]);
        }
    }
}

/// The likeness of the first candidate, or the stand-in below all likenesses (the pattern of -2).
pub open spec fn top_likeness(edges: Seq<IdentityReviewEdge>) -> Scalar {
    if edges.len() > 0 {
        edges[0].similarity
    } else {
        Scalar { bits: 0xc000_0000 }
    }
}

/// By what anchors take turns: named subjects first, then the one whose first candidate is most
/// alike, then the one with the most candidates, then the one with the most faces, then by name.
pub open spec fn anchor_key(subject: ReviewSubject, edges: Seq<IdentityReviewEdge>) -> Seq<i128> {
    let unnamed: int = if subject.name is Some {
        0
    } else {
        1
    };
    let likeness: int = 0 - top_likeness(edges).place();
    let candidates: int = 0 - edges.len();
    let members: int = 0 - subject.member_count;
    seq![
        unnamed as i128,
        likeness as i128,
        candidates as i128,
        members as i128,
        subject.identity_id.0 as i128,
    ]
}

/// The keys of all anchors.
pub open spec fn anchor_keys(subjects: Seq<ReviewSubject>, sets: Seq<Seq<IdentityReviewEdge>>) -> Seq<
    Seq<i128>,
> {
    Seq::new(subjects.len(), |i: int| anchor_key(subjects[i], sets[i]))
}

/// How many of `count` candidates a row shows.
pub open spec fn shown_count(count: int, limit: int) -> int {
    if count < limit {
        count
    } else {
        limit
    }
}

/// By what rows are ordered: the one whose first candidate is most alike first, then the one that
/// shows the most candidates, then named subjects, then by name.
pub open spec fn row_key(
    subjects: Seq<ReviewSubject>,
    row: (usize, Seq<IdentityReviewEdge>),
    limit: int,
) -> Seq<i128> {
    let subject = subjects[row.0 as int];
    let likeness: int = 0 - top_likeness(row.1).place();
    let shown: int = 0 - shown_count(row.1.len() as int, limit);
    let unnamed: int = if subject.name is Some {
        0
    } else {
        1
    };
    seq![likeness as i128, shown as i128, unnamed as i128, subject.identity_id.0 as i128]
}

/// The keys of all rows.
pub open spec fn row_keys(
    subjects: Seq<ReviewSubject>,
    rows: Seq<(usize, Seq<IdentityReviewEdge>)>,
    limit: int,
) -> Seq<Seq<i128>> {
    Seq::new(rows.len(), |i: int| row_key(subjects, rows[i], limit))
}

fn top_likeness_of(edges: &Vec<IdentityReviewEdge>) -> (r: Scalar)
    ensures
        r == top_likeness(edges@),
{
    if edges.len() > 0 {
        edges[0].similarity
    } else {
        Scalar { bits: 0xc000_0000 }
    }
}

/// The order in which anchors take turns.
fn anchor_order(subjects: &Vec<ReviewSubject>, sets: &Vec<Vec<IdentityReviewEdge>>) -> (order: Vec<usize>)
    requires
        subjects.len() == sets.len(),
    ensures
        rank::is_ranking(order@, anchor_keys(subjects@, edge_sets(sets@))),
{
    let mut keys: Vec<Vec<i128>> = Vec::new();
    let mut i: usize = 0;
    while i < subjects.len()
        invariant
            i <= subjects.len(),
            subjects.len() == sets.len(),
            keys.len() == i,
            forall|j: int| 0 <= j < i ==> (#[trigger] keys@[j])@ == anchor_key(subjects@[j], sets@[j]@),
        decreases subjects.len() - i,
    {
        let subject = &subjects[i];
        let unnamed: i128 = if subject.name.is_some() {
            0
        } else {
            1
        };
        let likeness: i128 = 0 - top_likeness_of(&sets[i]).place_key();
        let candidates: i128 = 0 - sets[i].len() as i128;
        let members: i128 = 0 - subject.member_count as i128;
        let key = vec![unnamed, likeness, candidates, members, subject.identity_id.0 as i128];
        assert(key@ =~= anchor_key(subjects@[i as int], sets@[i as int]@));
        keys.push(key);
        i += 1;
    }
    assert(rank::key_views(keys@) =~= anchor_keys(subjects@, edge_sets(sets@)));
    rank::ranking(&keys)
}

/// The order in which rows are shown.
fn row_order(subjects: &Vec<ReviewSubject>, drafts: &Vec<DraftRow>, limit: usize) -> (order: Vec<usize>)
    requires
        forall|i: int| 0 <= i < drafts.len() ==> (#[trigger] drafts@[i]).anchor < subjects.len(),
    ensures
        rank::is_ranking(order@, row_keys(subjects@, draft_rows(drafts@), limit as int)),
{
    let mut keys: Vec<Vec<i128>> = Vec::new();
    let mut i: usize = 0;
    while i < drafts.len()
        invariant
            i <= drafts.len(),
            forall|j: int| 0 <= j < drafts.len() ==> (#[trigger] drafts@[j]).anchor < subjects.len(),
            keys.len() == i,
            forall|j: int|
                0 <= j < i ==> (#[trigger] keys@[j])@ == row_key(
                    subjects@,
                    (drafts@[j].anchor, drafts@[j].edges@),
                    limit as int,
                ),
        decreases drafts.len() - i,
    {
        let draft = &drafts[i];
        let subject = &subjects[draft.anchor];
        let likeness: i128 = 0 - top_likeness_of(&draft.edges).place_key();
        let count: usize = if draft.edges.len() < limit {
            draft.edges.len()
        } else {
            limit
        };
        let shown: i128 = 0 - count as i128;
        let unnamed: i128 = if subject.name.is_some() {
            0
        } else {
            1
        };
        let key = vec![likeness, shown, unnamed, subject.identity_id.0 as i128];
        assert(key@ =~= row_key(
            subjects@,
            (drafts@[i as int].anchor, drafts@[i as int].edges@),
            limit as int,
        ));
        keys.push(key);
        i += 1;
    }
    assert(rank::key_views(keys@) =~= row_keys(subjects@, draft_rows(drafts@), limit as int));
    rank::ranking(&keys)
}

/// A candidate as it is shown.
#[derive(Debug)]
pub struct IdentityReviewCandidateView {
    pub pair_handle: String,
    pub face: FaceId,
    pub similarity: Scalar,
}

/// A row as it is shown.
#[derive(Debug)]
pub struct IdentityReviewRowView {
    pub name_slug: Option<String>,
    pub anchor_handle: String,
    pub anchor_face: FaceId,
    pub anchor_name: Option<String>,
    pub member_count: usize,
    pub candidate_count: usize,
    pub top_similarity: Option<Scalar>,
    pub candidates: Vec<IdentityReviewCandidateView>,
}

/// The review as it is shown.
#[derive(Debug)]
pub struct IdentityReviewView {
    pub status: IdentityReviewStatus,
    pub focus_name: Option<String>,
    pub recognition_ready: bool,
    pub rows: Vec<IdentityReviewRowView>,
}

/// The candidate is shown with its handle, its face and its likeness.
pub open spec fn shows_candidate(
    view: IdentityReviewCandidateView,
    key: Seq<u8>,
    subjects: Seq<ReviewSubject>,
    anchor: usize,
    edge: IdentityReviewEdge,
) -> bool {
    let candidate = subjects[edge.candidate_index as int];
    &&& view.pair_handle@ == handle_text(
        key,
        IDENTITY_HANDLE_TAG_PAIR,
        seq![subjects[anchor as int].identity_id.0, candidate.identity_id.0],
    )
    &&& view.face == candidate.representative_face
    &&& view.similarity == edge.similarity
}

/// The row is shown with its anchor and its first candidates.
pub open spec fn shows_row(
    view: IdentityReviewRowView,
    key: Seq<u8>,
    subjects: Seq<ReviewSubject>,
    row: (usize, Seq<IdentityReviewEdge>),
    limit: int,
) -> bool {
    let subject = subjects[row.0 as int];
    &&& match (view.name_slug, subject.name) {
        (None, None) => true,
        (Some(slug), Some(name)) => slug@ == subject_slug(name@),
        _ => false,
    }
    &&& view.anchor_handle@ == handle_text(
        key,
        IDENTITY_HANDLE_TAG_ANCHOR,
        seq![subject.identity_id.0],
    )
    &&& view.anchor_face == subject.representative_face
    &&& view.anchor_name == subject.name
    &&& view.member_count == subject.member_count
    &&& view.candidate_count == row.1.len()
    &&& view.top_similarity == if row.1.len() > 0 {
        Some(row.1[0].similarity)
    } else {
        None
    }
    &&& view.candidates@.len() == shown_count(row.1.len() as int, limit)
    &&& forall|i: int|
        0 <= i < view.candidates@.len() ==> shows_candidate(
            #[trigger] view.candidates@[i],
            key,
            subjects,
            row.0,
            row.1[i],
        )
}

/// Shows a row with at most `limit` candidates.
fn make_row(
    handles: &IdentityHandles,
    subjects: &Vec<ReviewSubject>,
    anchor: usize,
    edges: &Vec<IdentityReviewEdge>,
    limit: usize,
) -> (view: IdentityReviewRowView)
    requires
        anchor < subjects.len(),
        forall|i: int| 0 <= i < edges.len() ==> (#[trigger] edges@[i]).candidate_index < subjects.len(),
    ensures
        shows_row(view, handles.key@, subjects@, (anchor, edges@), limit as int),
{
    let subject = &subjects[anchor];
    let mut candidates: Vec<IdentityReviewCandidateView> = Vec::new();
    let mut i: usize = 0;
    while i < edges.len() && i < limit
        invariant
            i <= edges.len(),
            i <= limit,
            anchor < subjects.len(),
            subject == subjects@[anchor as int],
            forall|j: int| 0 <= j < edges.len() ==> (#[trigger] edges@[j]).candidate_index < subjects.len(),
            candidates.len() == i,
            forall|j: int|
                0 <= j < i ==> shows_candidate(
                    #[trigger] candidates@[j],
                    handles.key@,
                    subjects@,
                    anchor,
                    edges@[j],
                ),
        decreases edges.len() - i,
    {
        let edge = edges[i];
        let candidate = &subjects[edge.candidate_index];
        candidates.push(
            IdentityReviewCandidateView {
                pair_handle: handles.mint_identity_pair_handle(
                    subject.identity_id,
                    candidate.identity_id,
                ),
                face: candidate.representative_face,
                similarity: edge.similarity,
            },
        );
        i += 1;
    }
    let (name_slug, anchor_name) = match &subject.name {
        None => (None, None),
        Some(name) => (Some(slugify_subject_name(name.as_str())), Some(name.clone())),
    };
    IdentityReviewRowView {
        name_slug,
        anchor_handle: handles.mint_identity_anchor_handle(subject.identity_id),
        anchor_face: subject.representative_face,
        anchor_name,
        member_count: subject.member_count,
        candidate_count: edges.len(),
        top_similarity: if edges.len() > 0 {
            Some(edges[0].similarity)
        } else {
            None
        },
        candidates,
    }
}

/// The first position of a subject with a name that `slug` stands for, or the number of subjects
/// where there is none.
pub open spec fn slug_position(subjects: Seq<ReviewSubject>, slug: Seq<char>) -> int
    decreases subjects.len(),
{
    if subjects.len() == 0 || (subjects[0].name matches Some(name) && subject_slug(name@) == slug) {
        0
    } else {
        1 + slug_position(subjects.skip(1), slug)
    }
}

fn find_slug(subjects: &Vec<ReviewSubject>, slug: &str) -> (r: usize)
    ensures
        r == slug_position(subjects@, slug@),
        r <= subjects@.len(),
{
    let mut i: usize = 0;
    assert(subjects@.skip(0) =~= subjects@);
    while i < subjects.len()
        invariant
            i <= subjects.len(),
            slug_position(subjects@, slug@) == i + slug_position(subjects@.skip(i as int), slug@),
        decreases subjects.len() - i,
    {
        assert(subjects@.skip(i as int).skip(1) =~= subjects@.skip(i + 1));
        match &subjects[i].name {
            None => {},
            Some(name) => {
                if text::same_text(slugify_subject_name(name.as_str()).as_str(), slug) {
                    return i;
                }
            },
        }
        i += 1;
    }
    i
}

/// The row of one anchor, or none where the position is behind the last subject.
pub open spec fn single_row(sets: Seq<Seq<IdentityReviewEdge>>, at: int) -> Seq<
    (usize, Seq<IdentityReviewEdge>),
> {
    if at < sets.len() {
        seq![(at as usize, sets[at])]
    } else {
        Seq::empty()
    }
}

/// `rows` are the rows of the review before they are ordered, and `limit` is how many candidates
/// each shows: the row of the subject that is asked for by name or by handle, else those that the
/// subjects get in turn.
pub open spec fn are_review_rows(
    rows: Seq<(usize, Seq<IdentityReviewEdge>)>,
    limit: int,
    subjects: Seq<ReviewSubject>,
    sets: Seq<Seq<IdentityReviewEdge>>,
    focus_slug: Option<Seq<char>>,
    focus_anchor: Option<FaceIdentityId>,
) -> bool {
    match (focus_slug, focus_anchor) {
        (Some(slug), _) => {
            &&& rows == single_row(sets, slug_position(subjects, slug))
            &&& limit == IDENTITY_REVIEW_MAX_FOCUS_CANDIDATES
        },
        (None, Some(id)) => {
            &&& rows == single_row(sets, subject_position(subjects, id))
            &&& limit == IDENTITY_REVIEW_MAX_FOCUS_CANDIDATES
        },
        (None, None) => {
            &&& limit == IDENTITY_REVIEW_MAX_CANDIDATES_PER_ROW
            &&& exists|order: Seq<usize>| #[trigger]
                rank::is_ranking(order, anchor_keys(subjects, sets)) && rows == claims(
                    order,
                    sets,
                    order.len() as int,
                ).rows
        },
    }
}

/// The name that is asked for.
pub open spec fn asked_slug(focus_slug: Option<&str>) -> Option<Seq<char>> {
    match focus_slug {
        None => None,
        Some(slug) => Some(slug@),
    }
}

/// The subject that is asked for by its handle.
pub open spec fn asked_anchor(key: Seq<u8>, focus_anchor_handle: Option<&str>) -> Option<FaceIdentityId> {
    match focus_anchor_handle {
        None => None,
        Some(raw) => anchor_of(key, raw.spec_bytes()),
    }
}

/// How many subjects have a name.
pub open spec fn named_count(subjects: Seq<ReviewSubject>) -> nat
    decreases subjects.len(),
{
    if subjects.len() == 0 {
        0
    } else {
        named_count(subjects.drop_last()) + if subjects.last().name is Some {
            1nat
        } else {
            0nat
        }
    }
}

/// How many rows are shown of `count`: all where one subject is asked for, else at most so many.
pub open spec fn shown_rows(count: int, focused: bool) -> int {
    if focused || count < IDENTITY_REVIEW_MAX_ROWS {
        count
    } else {
        IDENTITY_REVIEW_MAX_ROWS as int
    }
}

/// The rows of the review, each with its anchor.
fn review_drafts(
    subjects: &Vec<ReviewSubject>,
    sets: &Vec<Vec<IdentityReviewEdge>>,
    focus_slug: Option<&str>,
    focus_anchor: Option<FaceIdentityId>,
) -> (r: (Vec<DraftRow>, usize))
    requires
        sets.len() == subjects.len(),
        edges_within(sets@, subjects@.len() as int),
    ensures
        are_review_rows(
            draft_rows(r.0@),
            r.1 as int,
            subjects@,
            edge_sets(sets@),
            asked_slug(focus_slug),
            focus_anchor,
        ),
        forall|i: int| 0 <= i < r.0.len() ==> (#[trigger] r.0@[i]).anchor < subjects.len(),
        forall|i: int, k: int|
            0 <= i < r.0.len() && 0 <= k < r.0@[i].edges@.len() ==> (
            #[trigger] r.0@[i].edges@[k]).candidate_index < subjects.len(),
{
    let ghost models = edge_sets(sets@);
    let focus: Option<usize> = match focus_slug {
        Some(slug) => Some(find_slug(subjects, slug)),
        None => match focus_anchor {
            Some(id) => match find_subject(subjects, id) {
                None => Some(subjects.len()),
                Some(at) => Some(at),
            },
            None => None,
        },
    };
    match focus {
        Some(at) => {
            let mut drafts: Vec<DraftRow> = Vec::new();
            if at < subjects.len() {
                let mut edges: Vec<IdentityReviewEdge> = Vec::new();
                let mut i: usize = 0;
                while i < sets[at].len()
                    invariant
                        at < sets.len(),
                        i <= sets@[at as int]@.len(),
                        edges@ == sets@[at as int]@.take(i as int),
                    decreases sets@[at as int]@.len() - i,
                {
                    edges.push(sets[at][i]);
                    assert(sets@[at as int]@.take(i + 1) =~= sets@[at as int]@.take(i as int).push(
                        sets@[at as int]@[i as int],
                    ));
                    i += 1;
                }
                assert(sets@[at as int]@.take(i as int) =~= sets@[at as int]@);
                drafts.push(DraftRow { anchor: at, edges });
                assert(models[at as int] == sets@[at as int]@);
            }
            assert(draft_rows(drafts@) =~= single_row(models, at as int));
            (drafts, IDENTITY_REVIEW_MAX_FOCUS_CANDIDATES)
        },
        None => {
            let order = anchor_order(subjects, sets);
            let drafts = claim_rows(&order, sets);
            proof {
                assert forall|i: int| 0 <= i < drafts.len() implies (#[trigger] drafts@[i]).anchor
                    < subjects.len() by {
                    lemma_claims_within(order@, models, order@.len() as int, i);
                    assert(draft_rows(drafts@)[i] == (drafts@[i].anchor, drafts@[i].edges@));
                    let j = choose|j: int| 0 <= j < order.len() && order@[j] == drafts@[i].anchor;
                    assert(order@[j] < subjects.len());
                }
                assert forall|i: int, k: int|
                    0 <= i < drafts.len() && 0 <= k < drafts@[i].edges@.len() implies (
                #[trigger] drafts@[i].edges@[k]).candidate_index < subjects.len() by {
                    lemma_claims_within(order@, models, order@.len() as int, i);
                    assert(draft_rows(drafts@)[i] == (drafts@[i].anchor, drafts@[i].edges@));
                    let a = drafts@[i].anchor as int;
                    let j = choose|j: int| 0 <= j < order.len() && order@[j] == drafts@[i].anchor;
                    assert(order@[j] < subjects.len());
                    let row = claims(order@, models, order@.len() as int).rows[i];
                    assert(row == (drafts@[i].anchor, drafts@[i].edges@));
                    assert(models[a].contains(
                        claims(order@, models, order@.len() as int).rows[i].1[k],
                    ));
                    let m = choose|m: int| 0 <= m < models[a].len() && models[a][m] == drafts@[i].edges@[k];
                    assert(sets@[a]@[m].candidate_index < subjects.len());
                }
            }
            (drafts, IDENTITY_REVIEW_MAX_CANDIDATES_PER_ROW)
        },
    }
}

proof fn lemma_claims_within(
    order: Seq<usize>,
    sets: Seq<Seq<IdentityReviewEdge>>,
    n: int,
    row: int,
)
    requires
        n <= order.len(),
        0 <= row < claims(order, sets, n).rows.len(),
    ensures
        order.contains(claims(order, sets, n).rows[row].0),
        forall|k: int|
            0 <= k < claims(order, sets, n).rows[row].1.len() ==> sets[claims(order, sets, n).rows[row].0 as int].contains(
                #[trigger] claims(order, sets, n).rows[row].1[k],
            ),
    decreases n,
{
    if n > 0 {
        let before = claims(order, sets, n - 1);
        let after = claims(order, sets, n);
        if after.rows.len() > before.rows.len() && row == before.rows.len() {
            let anchor = order[n - 1];
            let keep = |edge: IdentityReviewEdge| !before.offered.contains(edge.candidate_index);
            assert forall|k: int| 0 <= k < after.rows[row].1.len() implies sets[anchor as int].contains(
                #[trigger] after.rows[row].1[k],
            ) by {
                lemma_filter_member(sets[anchor as int], keep, k);
            }
        } else {
            assert(after.rows[row] == before.rows[row]);
            lemma_claims_within(order, sets, n - 1, row);
        }
    }
}

/// The review without recognised faces.
pub fn blank_review(threshold_percent: u8) -> (r: IdentityReviewView)
    ensures
        r.status == (IdentityReviewStatus {
            total_subjects: 0,
            named_subjects: 0,
            active_rows: 0,
            threshold_percent,
        }),
        r.focus_name is None,
        !r.recognition_ready,
        r.rows@.len() == 0,
{
    IdentityReviewView {
        status: IdentityReviewStatus {
            total_subjects: 0,
            named_subjects: 0,
            active_rows: 0,
            threshold_percent,
        },
        focus_name: None,
        recognition_ready: false,
        rows: Vec::new(),
    }
}

/// The review: which subjects may be the same person. `sets` holds the candidates of each subject.
/// A subject can be asked for by its name or by its handle; a handle that names none is as if it
/// were not there, but for the number of rows.
pub fn identity_review_view(
    handles: &IdentityHandles,
    subjects: &Vec<ReviewSubject>,
    sets: &Vec<Vec<IdentityReviewEdge>>,
    focus_slug: Option<&str>,
    focus_anchor_handle: Option<&str>,
    threshold_percent: u8,
) -> (view: IdentityReviewView)
    requires
        sets.len() == subjects.len(),
        edges_within(sets@, subjects@.len() as int),
    ensures
        view.status.total_subjects == subjects@.len(),
        view.status.named_subjects == named_count(subjects@),
        view.status.active_rows == view.rows@.len(),
        view.status.threshold_percent == threshold_percent,
        view.recognition_ready,
        exists|rows: Seq<(usize, Seq<IdentityReviewEdge>)>, limit: int, order: Seq<usize>|
            {
                &&& #[trigger] are_review_rows(
                    rows,
                    limit,
                    subjects@,
                    edge_sets(sets@),
                    asked_slug(focus_slug),
                    asked_anchor(handles.key@, focus_anchor_handle),
                )
                &&& #[trigger] rank::is_ranking(order, row_keys(subjects@, rows, limit))
                &&& view.rows@.len() == shown_rows(
                    rows.len() as int,
                    focus_slug is Some || focus_anchor_handle is Some,
                )
                &&& forall|k: int|
                    0 <= k < view.rows@.len() ==> shows_row(
                        #[trigger] view.rows@[k],
                        handles.key@,
                        subjects@,
                        rows[order[k] as int],
                        limit,
                    )
            },
        match view.focus_name {
            None => (focus_slug is None && focus_anchor_handle is None) || view.rows@.len() == 0,
            Some(name) => {
                &&& focus_slug is Some || focus_anchor_handle is Some
                &&& view.rows@.len() > 0
                &&& match view.rows@[0].anchor_name {
                    None => name@ == "unnamed subject"@,
                    Some(anchor_name) => name == anchor_name,
                }
            },
        },
{
    let focus_anchor = match focus_anchor_handle {
        None => None,
        Some(raw) => handles.resolve_identity_anchor_handle(raw),
    };
    let focused = focus_slug.is_some() || focus_anchor_handle.is_some();
    let (drafts, limit) = review_drafts(subjects, sets, focus_slug, focus_anchor);
    let order = row_order(subjects, &drafts, limit);
    let ghost rows = draft_rows(drafts@);
    let shown: usize = if focused || order.len() < IDENTITY_REVIEW_MAX_ROWS {
        order.len()
    } else {
        IDENTITY_REVIEW_MAX_ROWS
    };
    let mut views: Vec<IdentityReviewRowView> = Vec::new();
    let mut i: usize = 0;
    while i < shown
        invariant
            i <= shown <= order.len(),
            order.len() == drafts.len(),
            rows == draft_rows(drafts@),
            forall|j: int| 0 <= j < order.len() ==> (#[trigger] order@[j]) < drafts.len(),
            forall|j: int| 0 <= j < drafts.len() ==> (#[trigger] drafts@[j]).anchor < subjects.len(),
            forall|j: int, k: int|
                0 <= j < drafts.len() && 0 <= k < drafts@[j].edges@.len() ==> (
                #[trigger] drafts@[j].edges@[k]).candidate_index < subjects.len(),
            views.len() == i,
            forall|j: int|
                0 <= j < i ==> shows_row(
                    #[trigger] views@[j],
                    handles.key@,
                    subjects@,
                    rows[order@[j] as int],
                    limit as int,
                ),
        decreases shown - i,
    {
        let draft = &drafts[order[i]];
        assert(rows[order@[i as int] as int] == (draft.anchor, draft.edges@));
        views.push(make_row(handles, subjects, draft.anchor, &draft.edges, limit));
        i += 1;
    }
    let mut named: usize = 0;
    let mut s: usize = 0;
    while s < subjects.len()
        invariant
            s <= subjects.len(),
            named <= s,
            named == named_count(subjects@.take(s as int)),
        decreases subjects.len() - s,
    {
        assert(subjects@.take(s + 1).drop_last() =~= subjects@.take(s as int));
        if subjects[s].name.is_some() {
            named += 1;
        }
        s += 1;
    }
    assert(subjects@.take(s as int) =~= subjects@);
    let focus_name = if focused && views.len() > 0 {
        match &views[0].anchor_name {
            None => Some("unnamed subject".to_owned()),
            Some(name) => Some(name.clone()),
        }
    } else {
        None
    };
    IdentityReviewView {
        status: IdentityReviewStatus {
            total_subjects: subjects.len(),
            named_subjects: named,
            active_rows: views.len(),
            threshold_percent,
        },
        focus_name,
        recognition_ready: true,
        rows: views,
    }
}

/// Whether two subjects are made one: both exist, and the candidate has no name. `candidate_named`
/// says whether it has, where it exists.
pub fn identity_review_confirm(anchor_exists: bool, candidate_named: Option<bool>) -> (r: bool)
    ensures
        r == (anchor_exists && candidate_named == Some(false)),
{
    match candidate_named {
        Some(named) => anchor_exists && !named,
        None => false,
    }
}

} // verus!
