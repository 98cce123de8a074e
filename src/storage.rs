use vstd::prelude::*;
use vstd::string::StringExecFns;
use crate::error::StoreError;
use crate::record::{
    Entries, Row, RowsView, ScopeStore, from_rows, ids_unique, lemma_rows_round_trip, rows_of,
    rows_view,
};

verus! {

/// The bytes that bincode's standard configuration writes for a sequence of rows.
pub uninterp spec fn bincode_of(rows: RowsView) -> Seq<u8>;

/// The rows that bincode's standard configuration, limited to
/// `DECODE_LIMIT` bytes, reads from the front of `bytes`, if they hold a
/// sequence of rows within that limit.
pub uninterp spec fn bincode_decoded(bytes: Seq<u8>) -> Option<RowsView>;

/// The most bytes that decoding stored records may claim; a length read from
/// the bytes that would need more is refused rather than allocated.
pub const DECODE_LIMIT: usize = 16777216;

/// An upper bound on what decoding `rows` claims against the limit: 8 bytes
/// for the row count, and per row at most 64 for the row in memory, 26 for
/// its integers and the name's length, and 4 for each character of the name.
pub open spec fn decode_claim(rows: RowsView) -> nat
    decreases rows.len(),
{
    if rows.len() == 0 {
        8
    } else {
        decode_claim(rows.drop_last()) + 90 + 4 * rows.last().1.len()
    }
}

/// Digits `0`-`9` and `a`-`f`.
pub open spec fn is_lower_hex_digit(c: char) -> bool {
    ('0' <= c && c <= '9') || ('a' <= c && c <= 'f')
}

/// The 32 lowercase hexadecimal digits of the MD5 digest of the text's UTF-8 bytes.
pub uninterp spec fn md5_hex_of(s: Seq<char>) -> Seq<char>;

/// Relies on bincode::encode_to_vec with bincode::config::standard(): the
/// bytes of the rows, a length followed by each row's fields in order. It
/// writes to a `Vec`, which never fails, and integers and strings raise no
/// encoding error.
#[verifier::external_body]
fn bincode_encode(rows: &Vec<Row>) -> (r: Option<Vec<u8>>)
    ensures
        r is Some,
        r matches Some(b) ==> b@ == bincode_of(rows_view(rows@)),
{
    bincode::encode_to_vec(rows, bincode::config::standard()).ok()
}

/// Relies on bincode::decode_from_slice with bincode::config::standard()
/// limited to `DECODE_LIMIT` bytes: the result depends on the bytes alone,
/// bytes after the rows are ignored, a length that would claim more than the
/// limit is an error (not an allocation), and within the limit it reads back
/// what encoding wrote.
#[verifier::external_body]
fn bincode_decode(bytes: &[u8]) -> (r: Option<Vec<Row>>)
    ensures
        r is Some <==> bincode_decoded(bytes@) is Some,
        r matches Some(v) ==> rows_view(v@) == bincode_decoded(bytes@).unwrap(),
        forall|rows: RowsView|
            bytes@ == #[trigger] bincode_of(rows) && decode_claim(rows) <= DECODE_LIMIT ==> (r is Some
                && rows_view(r.unwrap()@) == rows),
{
    let config = bincode::config::standard().with_limit::<DECODE_LIMIT>();
    bincode::decode_from_slice::<Vec<Row>, _>(bytes, config).ok().map(|d| d.0)
}

/// Relies on md5::compute and the digest's LowerHex format: two lowercase
/// hexadecimal digits for each of the 16 bytes of the digest.
#[verifier::external_body]
fn md5_lower_hex(s: &str) -> (r: String)
    ensures
        r@ == md5_hex_of(s@),
        r@.len() == 32,
        forall|i: int| 0 <= i < r@.len() ==> is_lower_hex_digit(#[trigger] r@[i]),
{
    format!("{:x}", md5::compute(s.as_bytes()))
}

pub open spec fn digit_char(d: nat) -> char {
    ((48 + d) as u8) as char
}

/// The decimal digits of `n`, most significant first.
pub open spec fn digits(n: nat) -> Seq<char>
    decreases n,
{
    if n < 10 {
        seq![digit_char(n)]
    } else {
        digits(n / 10).push(digit_char(n % 10))
    }
}

/// `n` written in decimal, with a leading `-` when negative.
pub open spec fn decimal(n: int) -> Seq<char> {
    if n < 0 {
        seq!['-'] + digits((-n) as nat)
    } else {
        digits(n as nat)
    }
}

/// Relies on i64's Display, through ToString: the decimal form of the number.
#[verifier::external_body]
fn decimal_text(n: i64) -> (r: String)
    ensures
        r@ == decimal(n as int),
{
    n.to_string()
}

/// The MD5 digest of `input` as 32 lowercase hexadecimal digits.
pub fn calculate_md5(input: &str) -> (r: String)
    ensures
        r@ == md5_hex_of(input@),
        r@.len() == 32,
        forall|i: int| 0 <= i < r@.len() ==> is_lower_hex_digit(#[trigger] r@[i]),
{
    md5_lower_hex(input)
}

/// The name of the data file for the chat or file stem `stem`.
pub open spec fn data_file_name(stem: Seq<char>) -> Seq<char> {
    md5_hex_of(stem) + seq!['.', 'd', 'a', 't']
}

/// The data file of a text file stem: its MD5 digest in hexadecimal, then `.dat`.
pub fn data_file_for_stem(stem: &str) -> (r: String)
    ensures
        r@ == data_file_name(stem@),
        r@.len() == 36,
{
    let mut name = md5_lower_hex(stem);
    name.append(".dat");
    proof {
        reveal_strlit(".dat");
    }
    assert(name@ =~= data_file_name(stem@));
    name
}

/// The data file of chat `scope_id`: the MD5 digest of the id in decimal,
/// then `.dat`. The same id always gives the same name.
pub fn storage_file_name(scope_id: i64) -> (r: String)
    ensures
        r@ == data_file_name(decimal(scope_id as int)),
        r@.len() == 36,
{
    let stem = decimal_text(scope_id);
    data_file_for_stem(stem.as_str())
}

/// The name under which a text file with stem `stem` is kept after migration.
pub open spec fn backup_file_name(stem: Seq<char>) -> Seq<char> {
    stem + seq!['.', 'j', 's', 'o', 'n', '.', 'b', 'a', 'k']
}

pub fn backup_file_for_stem(stem: &str) -> (r: String)
    ensures
        r@ == backup_file_name(stem@),
{
    let mut name = stem.to_string();
    name.append(".json.bak");
    proof {
        reveal_strlit(".json.bak");
    }
    assert(name@ =~= backup_file_name(stem@));
    name
}

/// The bytes at rest of a store.
pub fn encode_store(store: &ScopeStore) -> (r: Vec<u8>)
    ensures
        r@ == bincode_of(rows_of(store@)),
{
    let rows = store.to_rows();
    bincode_encode(&rows).unwrap()
}

/// A store small enough that its bytes decode within `DECODE_LIMIT`.
pub open spec fn fits_decode_limit(s: Entries) -> bool {
    decode_claim(rows_of(s)) <= DECODE_LIMIT
}

/// The store that stored bytes hold. Decoding what `encode_store` wrote gives
/// back the same entries in the same order, for any store within the limit.
pub fn decode_store(bytes: &[u8]) -> (r: Result<ScopeStore, StoreError>)
    ensures
        match bincode_decoded(bytes@) {
            None => r == Err::<ScopeStore, StoreError>(StoreError::StorageCorrupt),
            Some(rows) => r matches Ok(s) && s.wf() && s@ == from_rows(rows),
        },
        forall|s: Entries|
            ids_unique(s) && fits_decode_limit(s) && bytes@ == #[trigger] bincode_of(rows_of(s)) ==> (r matches Ok(
                st,
            ) && st@ == s),
{
    match bincode_decode(bytes) {
        None => Err(StoreError::StorageCorrupt),
        Some(rows) => {
            let st = ScopeStore::from_rows(rows);
            assert forall|s: Entries|
                ids_unique(s) && fits_decode_limit(s) && bytes@ == #[trigger] bincode_of(rows_of(s)) implies st@
                    == s by {
                lemma_rows_round_trip(s);
            }
            Ok(st)
        },
    }
}

/// What loading gives: an empty store where nothing is stored yet, else what
/// the stored bytes decode to. It depends on the stored bytes alone.
pub open spec fn loaded(stored: Option<Seq<u8>>) -> Result<Entries, StoreError> {
    match stored {
        None => Ok(Seq::empty()),
        Some(b) => match bincode_decoded(b) {
            None => Err(StoreError::StorageCorrupt),
            Some(rows) => Ok(from_rows(rows)),
        },
    }
}

pub open spec fn store_result_view(r: Result<ScopeStore, StoreError>) -> Result<Entries, StoreError> {
    match r {
        Ok(s) => Ok(s@),
        Err(e) => Err(e),
    }
}

/// Loads a chat's store from what its data file holds, `None` where there is
/// no file yet (the caller then writes `encode_store` of the empty store).
pub fn load_from(stored: Option<&[u8]>) -> (r: Result<ScopeStore, StoreError>)
    ensures
        store_result_view(r) == loaded(
            match stored {
                Some(b) => Some(b@),
                None => None,
            },
        ),
        r matches Ok(s) ==> s.wf(),
{
    match stored {
        None => Ok(ScopeStore::new()),
        Some(b) => decode_store(b),
    }
}

/// Loading twice from the same stored bytes, with no save between, gives
/// equal stores, or the same error.
pub proof fn lemma_load_idempotent(stored: Option<Seq<u8>>, first: Result<Entries, StoreError>, second: Result<Entries, StoreError>)
    requires
        first == loaded(stored),
        second == loaded(stored),
    ensures
        first == second,
{
}

/// What migrating a text file produces: the data file's name and bytes, and
/// the name of the backup of the original.
pub struct MigrationPlan {
    pub data_file: String,
    pub backup_file: String,
    pub bytes: Vec<u8>,
}

/// Converts the rows read from the text file with stem `stem` to the binary
/// form, named as the live store names the chat whose id is the stem.
pub fn migration_plan(stem: &str, rows: Vec<Row>) -> (p: MigrationPlan)
    ensures
        p.data_file@ == data_file_name(stem@),
        p.backup_file@ == backup_file_name(stem@),
        p.bytes@ == bincode_of(rows_of(from_rows(rows_view(rows@)))),
{
    let store = ScopeStore::from_rows(rows);
    let bytes = encode_store(&store);
    MigrationPlan { data_file: data_file_for_stem(stem), backup_file: backup_file_for_stem(stem), bytes }
}

} // verus!
