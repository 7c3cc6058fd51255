//! The `aidb` file layout: magic tag, big-endian payload length, password
//! check value, and the encrypted payload.
use vstd::prelude::*;
use vstd::string::StringSliceAdditionalSpecFns;
use crate::cipher::{apply_cipher, apply_keystream, check_value, check_value_of, lemma_cipher_involution, DIGEST_LEN};

verus! {

/// Length of the fixed header that precedes the encrypted payload.
pub const HEADER_LEN: usize = 24;

/// Why a byte sequence could not be opened as a database.
#[derive(Debug, Clone, Copy, PartialEq, Eq, Structural)]
pub enum DbError {
    /// Shorter than the fixed header.
    TooSmall,
    /// Does not start with the magic tag.
    BadFormat,
    /// The length field disagrees with the payload actually present.
    SizeMismatch,
    /// The password's check value differs from the stored one.
    WrongPassword,
    /// The decrypted payload is not a valid record list.
    CorruptPayload,
}

/// The magic tag `aidb`.
pub open spec fn magic() -> Seq<u8> {
    seq![97u8, 105u8, 100u8, 98u8]
}

/// Four bytes holding `n` in big-endian order.
pub open spec fn be32(n: nat) -> Seq<u8> {
    seq![
        ((n / 16777216) % 256) as u8,
        ((n / 65536) % 256) as u8,
        ((n / 256) % 256) as u8,
        (n % 256) as u8,
    ]
}

/// The number that four big-endian bytes hold.
pub open spec fn be32_value(b: Seq<u8>) -> nat {
    (b[0] as nat) * 16777216 + (b[1] as nat) * 65536 + (b[2] as nat) * 256 + (b[3] as nat)
}

/// The file that holds `plain` encrypted under `password`.
pub open spec fn encoded(plain: Seq<u8>, password: Seq<u8>) -> Seq<u8> {
    magic() + be32(plain.len()) + check_value_of(password) + apply_cipher(password, plain)
}

/// What opening the file `b` with `password` gives: the checks in order of
/// cost, then the decrypted payload.
pub open spec fn decoded(b: Seq<u8>, password: Seq<u8>) -> Result<Seq<u8>, DbError> {
    if b.len() < HEADER_LEN {
        Err(DbError::TooSmall)
    } else if b.subrange(0, 4) != magic() {
        Err(DbError::BadFormat)
    } else if be32_value(b.subrange(4, 8)) != b.len() - HEADER_LEN {
        Err(DbError::SizeMismatch)
    } else if b.subrange(8, HEADER_LEN as int) != check_value_of(password) {
        Err(DbError::WrongPassword)
    } else {
        Ok(apply_cipher(password, b.subrange(HEADER_LEN as int, b.len() as int)))
    }
}

proof fn lemma_be32_round_trip(n: nat)
    requires
        n <= u32::MAX,
    ensures
        be32(n).len() == 4,
        be32_value(be32(n)) == n,
{
    let b = be32(n);
    assert(b[0] as nat == (n / 16777216) % 256);
    assert(b[1] as nat == (n / 65536) % 256);
    assert(b[2] as nat == (n / 256) % 256);
    assert(b[3] as nat == n % 256);
    assert((n / 16777216) % 256 * 16777216 + (n / 65536) % 256 * 65536 + (n / 256) % 256 * 256
        + n % 256 == n) by (nonlinear_arith)
        requires
            n <= 4294967295,
    ;
}

/// Writes `plain` encrypted under `password`, behind the header.
pub fn encode_database(plain: &Vec<u8>, password: &str) -> (r: Vec<u8>)
    requires
        plain@.len() <= u32::MAX,
    ensures
        r@ == encoded(plain@, password.spec_bytes()),
{
    let n = plain.len() as u32;
    let mut out: Vec<u8> = Vec::new();
    out.push(97u8);
    out.push(105u8);
    out.push(100u8);
    out.push(98u8);
    out.push((n / 16777216) as u8);
    out.push(((n / 65536) % 256) as u8);
    out.push(((n / 256) % 256) as u8);
    out.push((n % 256) as u8);
    assert(out@ =~= magic() + be32(plain@.len()));
    let check = check_value(password);
    let mut i: usize = 0;
    while i < DIGEST_LEN
        invariant
            i <= DIGEST_LEN,
            check@.len() == DIGEST_LEN,
            out@ =~= magic() + be32(plain@.len()) + check@.subrange(0, i as int),
        decreases DIGEST_LEN - i,
    {
        out.push(check[i]);
        i = i + 1;
    }
    assert(check@.subrange(0, DIGEST_LEN as int) =~= check@);
    let mut body = plain.clone();
    apply_keystream(password, &mut body);
    let ghost head = out@;
    let mut j: usize = 0;
    while j < body.len()
        invariant
            j <= body@.len(),
            out@ =~= head + body@.subrange(0, j as int),
        decreases body@.len() - j,
    {
        out.push(body[j]);
        j = j + 1;
    }
    assert(body@.subrange(0, body@.len() as int) =~= body@);
    out
}

/// Opens the database bytes `b` with `password`, giving the decrypted payload.
pub fn decode_database(b: &Vec<u8>, password: &str) -> (r: Result<Vec<u8>, DbError>)
    ensures
        match r {
            Ok(v) => decoded(b@, password.spec_bytes()) == Ok::<Seq<u8>, DbError>(v@),
            Err(e) => decoded(b@, password.spec_bytes()) == Err::<Seq<u8>, DbError>(e),
        },
{
    if b.len() < HEADER_LEN {
        return Err(DbError::TooSmall);
    }
    if !(b[0] == 97u8 && b[1] == 105u8 && b[2] == 100u8 && b[3] == 98u8) {
        assert(b@.subrange(0, 4) != magic()) by {
            if b@.subrange(0, 4) == magic() {
                assert(b@.subrange(0, 4)[0] == b@[0]);
                assert(b@.subrange(0, 4)[1] == b@[1]);
                assert(b@.subrange(0, 4)[2] == b@[2]);
                assert(b@.subrange(0, 4)[3] == b@[3]);
            }
        }
        return Err(DbError::BadFormat);
    }
    assert(b@.subrange(0, 4) =~= magic());
    let len: u64 = (b[4] as u64) * 16777216 + (b[5] as u64) * 65536 + (b[6] as u64) * 256
        + (b[7] as u64);
    assert(len as nat == be32_value(b@.subrange(4, 8)));
    if len != (b.len() - HEADER_LEN) as u64 {
        return Err(DbError::SizeMismatch);
    }
    let check = check_value(password);
    let mut i: usize = 0;
    while i < DIGEST_LEN
        invariant
            i <= DIGEST_LEN,
            check@ == check_value_of(password.spec_bytes()),
            check@.len() == DIGEST_LEN,
            b@.len() >= HEADER_LEN,
            b@.subrange(0, 4) == magic(),
            be32_value(b@.subrange(4, 8)) == b@.len() - HEADER_LEN,
            forall|k: int| 0 <= k < i ==> b@[8 + k] == check@[k],
        decreases DIGEST_LEN - i,
    {
        if b[8 + i] != check[i] {
            assert(b@.subrange(8, HEADER_LEN as int)[i as int] != check@[i as int]);
            assert(b@.subrange(8, HEADER_LEN as int) != check_value_of(password.spec_bytes()));
            return Err(DbError::WrongPassword);
        }
        i = i + 1;
    }
    assert(b@.subrange(8, HEADER_LEN as int) =~= check@);
    let mut body: Vec<u8> = Vec::new();
    let mut j: usize = HEADER_LEN;
    while j < b.len()
        invariant
            HEADER_LEN <= j <= b@.len(),
            body@ =~= b@.subrange(HEADER_LEN as int, j as int),
        decreases b@.len() - j,
    {
        body.push(b[j]);
        j = j + 1;
    }
    apply_keystream(password, &mut body);
    Ok(body)
}

/// Any byte sequence shorter than the header is refused as too small.
pub proof fn lemma_short_input_too_small(b: Seq<u8>, password: Seq<u8>)
    requires
        b.len() < HEADER_LEN,
    ensures
        decoded(b, password) == Err::<Seq<u8>, DbError>(DbError::TooSmall),
{
}

/// A header-sized or longer byte sequence that does not start with the
/// magic tag is refused as not in the format, whatever follows the tag.
pub proof fn lemma_bad_magic_bad_format(b: Seq<u8>, password: Seq<u8>)
    requires
        b.len() >= HEADER_LEN,
        b.subrange(0, 4) != magic(),
    ensures
        decoded(b, password) == Err::<Seq<u8>, DbError>(DbError::BadFormat),
{
}

/// Opening an encoded payload with the password it was encoded under gives
/// the payload back.
pub proof fn lemma_round_trip(plain: Seq<u8>, password: Seq<u8>)
    requires
        plain.len() <= u32::MAX,
    ensures
        decoded(encoded(plain, password), password) == Ok::<Seq<u8>, DbError>(plain),
{
    let e = encoded(plain, password);
    lemma_be32_round_trip(plain.len());
    let body = apply_cipher(password, plain);
    assert(e.subrange(0, 4) =~= magic());
    assert(e.subrange(4, 8) =~= be32(plain.len()));
    assert(e.subrange(8, HEADER_LEN as int) =~= check_value_of(password));
    assert(e.subrange(HEADER_LEN as int, e.len() as int) =~= body);
    lemma_cipher_involution(password, plain);
}

/// Opening an encoded payload with another password, one whose check value
/// differs from that of the password it was encoded under, is refused as a
/// wrong password before anything is decrypted.
pub proof fn lemma_wrong_password(plain: Seq<u8>, password1: Seq<u8>, password2: Seq<u8>)
    requires
        plain.len() <= u32::MAX,
        check_value_of(password1) != check_value_of(password2),
    ensures
        decoded(encoded(plain, password1), password2) == Err::<Seq<u8>, DbError>(
            DbError::WrongPassword,
        ),
{
    let e = encoded(plain, password1);
    lemma_be32_round_trip(plain.len());
    assert(e.subrange(0, 4) =~= magic());
    assert(e.subrange(4, 8) =~= be32(plain.len()));
    assert(e.subrange(8, HEADER_LEN as int) =~= check_value_of(password1));
}

/// What checking `password` against a database gives, from the database's
/// first bytes `head` and its total length `file_len`: the structural
/// checks of opening it, then whether the check values agree.
pub open spec fn password_checked(head: Seq<u8>, file_len: nat, password: Seq<u8>) -> Result<bool, DbError> {
    if file_len < HEADER_LEN || head.len() < HEADER_LEN {
        Err(DbError::TooSmall)
    } else if head.subrange(0, 4) != magic() {
        Err(DbError::BadFormat)
    } else if be32_value(head.subrange(4, 8)) != file_len - HEADER_LEN {
        Err(DbError::SizeMismatch)
    } else {
        Ok(head.subrange(8, HEADER_LEN as int) == check_value_of(password))
    }
}

/// Checks `password` against a database from its first bytes and its
/// length alone, without reading or decrypting the payload.
pub fn check_password(head: &Vec<u8>, file_len: u64, password: &str) -> (r: Result<bool, DbError>)
    ensures
        r == password_checked(head@, file_len as nat, password.spec_bytes()),
{
    if file_len < HEADER_LEN as u64 || head.len() < HEADER_LEN {
        return Err(DbError::TooSmall);
    }
    if !(head[0] == 97u8 && head[1] == 105u8 && head[2] == 100u8 && head[3] == 98u8) {
        assert(head@.subrange(0, 4) != magic()) by {
            if head@.subrange(0, 4) == magic() {
                assert(head@.subrange(0, 4)[0] == head@[0]);
                assert(head@.subrange(0, 4)[1] == head@[1]);
                assert(head@.subrange(0, 4)[2] == head@[2]);
                assert(head@.subrange(0, 4)[3] == head@[3]);
            }
        }
        return Err(DbError::BadFormat);
    }
    assert(head@.subrange(0, 4) =~= magic());
    let len: u64 = (head[4] as u64) * 16777216 + (head[5] as u64) * 65536 + (head[6] as u64) * 256
        + (head[7] as u64);
    assert(len as nat == be32_value(head@.subrange(4, 8)));
    if len != file_len - HEADER_LEN as u64 {
        return Err(DbError::SizeMismatch);
    }
    let check = check_value(password);
    let mut i: usize = 0;
    while i < DIGEST_LEN
        invariant
            i <= DIGEST_LEN,
            check@ == check_value_of(password.spec_bytes()),
            check@.len() == DIGEST_LEN,
            head@.len() >= HEADER_LEN,
            file_len >= HEADER_LEN,
            head@.subrange(0, 4) == magic(),
            be32_value(head@.subrange(4, 8)) == file_len - HEADER_LEN,
            forall|k: int| 0 <= k < i ==> head@[8 + k] == check@[k],
        decreases DIGEST_LEN - i,
    {
        if head[8 + i] != check[i] {
            assert(head@.subrange(8, HEADER_LEN as int)[i as int] != check@[i as int]);
            assert(head@.subrange(8, HEADER_LEN as int) != check_value_of(password.spec_bytes()));
            return Ok(false);
        }
        i = i + 1;
    }
    assert(head@.subrange(8, HEADER_LEN as int) =~= check@);
    Ok(true)
}

} // verus!
