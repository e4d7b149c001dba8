//! Tokens for the relay: the signing algorithms, the claims a token carries,
//! and the checks a key makes before it signs or verifies.
use vstd::prelude::*;

use aws_lc_rs::error::Unspecified;

use crate::text::{compare_paths, PathOrder};

verus! {

#[verifier::external_type_specification]
#[verifier::external_body]
pub struct ExUnspecified(Unspecified);

/// A subset of the JSON Web Token algorithms: HMAC with SHA-2.
#[derive(Clone, Copy, Debug, PartialEq, Eq, Structural, Hash)]
pub enum Algorithm {
    HS256,
    HS384,
    HS512,
}

/// The name of an algorithm, as written in tokens and on the command line.
pub open spec fn algorithm_name(a: Algorithm) -> Seq<char> {
    match a {
        Algorithm::HS256 => "HS256"@,
        Algorithm::HS384 => "HS384"@,
        Algorithm::HS512 => "HS512"@,
    }
}

/// Errors about tokens and keys.
#[derive(Debug, PartialEq, Eq)]
pub enum TokenError {
    /// The name is not one of the supported algorithms.
    InvalidAlgorithm(String),
    /// The text is not a decimal integer.
    ExpectedTimestamp,
    /// The timestamp is before the Unix epoch.
    TimestampOutOfRange,
    /// The key may not be used to verify tokens.
    CannotVerify,
    /// The key may not be used to sign tokens.
    CannotSign,
    /// No random secret could be made.
    Random,
}

impl Algorithm {
    /// Parse an algorithm from its name.
    pub fn from_str(s: &str) -> (r: Result<Algorithm, TokenError>)
        ensures
            match r {
                Ok(a) => algorithm_name(a) == s@,
                Err(e) => (e matches TokenError::InvalidAlgorithm(t) && t@ == s@) && forall|a: Algorithm|
                    algorithm_name(a) != s@,
            },
    {
        if compare_paths(s, "HS256") == PathOrder::Equal {
            return Ok(Algorithm::HS256);
        }
        if compare_paths(s, "HS384") == PathOrder::Equal {
            return Ok(Algorithm::HS384);
        }
        if compare_paths(s, "HS512") == PathOrder::Equal {
            return Ok(Algorithm::HS512);
        }
        assert forall|a: Algorithm| algorithm_name(a) != s@ by {
            match a {
                Algorithm::HS256 => {},
                Algorithm::HS384 => {},
                Algorithm::HS512 => {},
            }
        }
        Err(TokenError::InvalidAlgorithm(crate::text::owned(s)))
    }

    /// The name of the algorithm.
    pub fn as_str(&self) -> (r: &'static str)
        ensures
            r@ == algorithm_name(*self),
    {
        match self {
            Algorithm::HS256 => "HS256",
            Algorithm::HS384 => "HS384",
            Algorithm::HS512 => "HS512",
        }
    }
}

/// What a key may be used for.
#[derive(Clone, Copy, Debug, PartialEq, Eq, Structural, Hash)]
pub enum KeyOperation {
    Sign,
    Verify,
    Decrypt,
    Encrypt,
}

/// The claims of a token.
#[derive(Debug, PartialEq, Eq)]
pub struct Payload {
    /// The root path. All paths are relative to this path.
    pub path: String,
    /// If specified, the user can publish any broadcasts matching this path.
    pub publish: Option<String>,
    /// If specified, the user will publish this path.
    pub publish_force: Option<String>,
    /// If specified, the user can subscribe to any broadcasts matching a prefix.
    pub subscribe: Option<String>,
    /// The expiration time of the token, in seconds since the Unix epoch.
    pub expires: Option<i64>,
    /// The issued time of the token, in seconds since the Unix epoch.
    pub issued: Option<i64>,
}

impl Default for Payload {
    fn default() -> (r: Self)
        ensures
            r.path@ == Seq::<char>::empty(),
            r.publish is None,
            r.publish_force is None,
            r.subscribe is None,
            r.expires is None,
            r.issued is None,
    {
        Payload {
            path: String::new(),
            publish: None,
            publish_force: None,
            subscribe: None,
            expires: None,
            issued: None,
        }
    }
}

/// A key for signing and verifying tokens.
#[derive(Debug)]
pub struct Key {
    /// The algorithm used by the key.
    pub algorithm: Algorithm,
    /// The operations that the key can perform, each once.
    pub operations: Vec<KeyOperation>,
    /// The secret key.
    pub secret: Vec<u8>,
    /// The key ID, useful for rotating keys.
    pub kid: Option<String>,
}

/// No operation is listed twice.
pub open spec fn no_repeats(ops: Seq<KeyOperation>) -> bool {
    forall|i: int, j: int| 0 <= i < j < ops.len() ==> ops[i] != ops[j]
}

impl Key {
    /// The operations form a set: none is listed twice.
    pub open spec fn wf(&self) -> bool {
        no_repeats(self.operations@)
    }

    /// A key with these operations, each kept once, in the order of its
    /// first occurrence.
    pub fn new(algorithm: Algorithm, operations: Vec<KeyOperation>, secret: Vec<u8>, kid: Option<String>) -> (r: Key)
        ensures
            r.wf(),
            r.algorithm == algorithm,
            forall|op: KeyOperation| r.operations@.contains(op) <==> operations@.contains(op),
            r.secret@ == secret@,
            r.kid == kid,
    {
        let mut ops: Vec<KeyOperation> = Vec::new();
        let mut i: usize = 0;
        while i < operations.len()
            invariant
                i <= operations@.len(),
                no_repeats(ops@),
                forall|op: KeyOperation| ops@.contains(op) <==> operations@.take(i as int).contains(op),
            decreases operations@.len() - i,
        {
            let op = operations[i];
            let mut seen = false;
            let mut j: usize = 0;
            while j < ops.len()
                invariant
                    j <= ops@.len(),
                    seen <==> ops@.take(j as int).contains(op),
                decreases ops@.len() - j,
            {
                if ops[j] == op {
                    seen = true;
                }
                proof {
                    let t = ops@.take(j + 1);
                    assert(t =~= ops@.take(j as int).push(ops@[j as int]));
                    if ops@.take(j as int).contains(op) {
                        let k = choose|k: int| 0 <= k < j && ops@.take(j as int)[k] == op;
                        assert(t[k] == op);
                    }
                    if t.contains(op) && ops@[j as int] != op {
                        let k = choose|k: int| 0 <= k < t.len() && t[k] == op;
                        assert(ops@.take(j as int)[k] == op);
                    }
                    if ops@[j as int] == op {
                        assert(t[j as int] == op);
                    }
                }
                j = j + 1;
            }
            assert(ops@.take(j as int) =~= ops@);
            let ghost before = ops@;
            if !seen {
                ops.push(op);
            }
            proof {
                assert(forall|k: int| 0 <= k < before.len() ==> ops@[k] == before[k]);
                assert(operations@.take(i + 1) =~= operations@.take(i as int).push(op));
                let t = operations@.take(i + 1);
                assert forall|o: KeyOperation| ops@.contains(o) <==> t.contains(o) by {
                    if ops@.contains(o) {
                        let k = choose|k: int| 0 <= k < ops@.len() && ops@[k] == o;
                        if k < before.len() {
                            assert(before[k] == o);
                            assert(before.contains(o));
                            assert(operations@.take(i as int).contains(o));
                            let m = choose|m: int| 0 <= m < i && operations@.take(i as int)[m] == o;
                            assert(t[m] == o);
                        } else {
                            assert(o == op);
                            assert(t[i as int] == o);
                        }
                    }
                    if t.contains(o) {
                        if o == op {
                            if seen {
                                assert(before.contains(op));
                                let k = choose|k: int| 0 <= k < before.len() && before[k] == op;
                                assert(ops@[k] == op);
                            } else {
                                assert(ops@[ops@.len() - 1] == o);
                            }
                        } else {
                            let m = choose|m: int| 0 <= m < t.len() && t[m] == o;
                            assert(m < i);
                            assert(operations@.take(i as int)[m] == o);
                            assert(before.contains(o));
                            let k = choose|k: int| 0 <= k < before.len() && before[k] == o;
                            assert(ops@[k] == o);
                        }
                    }
                }
                assert(no_repeats(ops@)) by {
                    if !seen {
                        assert forall|x: int, y: int| 0 <= x < y < ops@.len() implies ops@[x] != ops@[y] by {
                            if y == ops@.len() - 1 {
                                assert(before[x] == ops@[x]);
                                if ops@[x] == op {
                                    assert(before.contains(op));
                                }
                            }
                        }
                    }
                }
            }
            i = i + 1;
        }
        assert(operations@.take(i as int) =~= operations@);
        Key { algorithm, operations: ops, secret, kid }
    }

    /// Whether the key may perform the operation.
    pub fn supports(&self, op: KeyOperation) -> (r: bool)
        ensures
            r == self.operations@.contains(op),
    {
        let mut i: usize = 0;
        while i < self.operations.len()
            invariant
                i <= self.operations@.len(),
                forall|j: int| 0 <= j < i ==> self.operations@[j] != op,
            decreases self.operations@.len() - i,
        {
            if self.operations[i] == op {
                return true;
            }
            i = i + 1;
        }
        false
    }

    /// Check that the key may verify tokens, as verification does first.
    pub fn check_verify(&self) -> (r: Result<(), TokenError>)
        ensures
            r is Ok <==> self.operations@.contains(KeyOperation::Verify),
            r matches Err(e) ==> e == TokenError::CannotVerify,
    {
        if self.supports(KeyOperation::Verify) {
            Ok(())
        } else {
            Err(TokenError::CannotVerify)
        }
    }

    /// Check that the key may sign tokens, as signing does first.
    pub fn check_sign(&self) -> (r: Result<(), TokenError>)
        ensures
            r is Ok <==> self.operations@.contains(KeyOperation::Sign),
            r matches Err(e) ==> e == TokenError::CannotSign,
    {
        if self.supports(KeyOperation::Sign) {
            Ok(())
        } else {
            Err(TokenError::CannotSign)
        }
    }

    /// A new key for the algorithm with this secret, allowed to sign and verify.
    pub fn from_secret(algorithm: Algorithm, id: Option<String>, secret: Vec<u8>) -> (r: Key)
        ensures
            r.wf(),
            r.algorithm == algorithm,
            r.operations@ == seq![KeyOperation::Sign, KeyOperation::Verify],
            r.secret@ == secret@,
            r.kid == id,
    {
        let mut operations = Vec::new();
        operations.push(KeyOperation::Sign);
        operations.push(KeyOperation::Verify);
        Key { algorithm, operations, secret, kid: id }
    }
}

/// `aws_lc_rs::rand::fill` on the bytes of a vector: fills them with random
/// bytes, or fails. The bytes it fills are random, so nothing is stated of
/// them; the length stays.
#[verifier::external_body]
fn random_fill(dest: &mut Vec<u8>) -> (r: Result<(), Unspecified>)
    ensures
        final(dest)@.len() == old(dest)@.len(),
{
    aws_lc_rs::rand::fill(dest.as_mut_slice())
}

impl Key {
    /// Generate a key for the algorithm with a random secret of the
    /// algorithm's size, allowed to sign and verify.
    pub fn generate(algorithm: Algorithm, id: Option<String>) -> (r: Result<Key, TokenError>)
        ensures
            r matches Ok(k) ==> k.wf() && k.algorithm == algorithm && k.operations@ == seq![KeyOperation::Sign, KeyOperation::Verify]
                && k.secret@.len() == secret_size_of(algorithm) && k.kid == id,
            r matches Err(e) ==> e == TokenError::Random,
    {
        let size = secret_size(algorithm);
        let mut secret: Vec<u8> = Vec::new();
        let mut i: usize = 0;
        while i < size
            invariant
                i <= size,
                secret@.len() == i,
            decreases size - i,
        {
            secret.push(0);
            i = i + 1;
        }
        match random_fill(&mut secret) {
            Err(_) => Err(TokenError::Random),
            Ok(()) => Ok(Key::from_secret(algorithm, id, secret)),
        }
    }
}

/// The size in bytes of a generated secret for the algorithm.
pub open spec fn secret_size_of(algorithm: Algorithm) -> int {
    match algorithm {
        Algorithm::HS256 => 32,
        Algorithm::HS384 => 48,
        Algorithm::HS512 => 64,
    }
}

/// The size in bytes of a generated secret for the algorithm.
pub fn secret_size(algorithm: Algorithm) -> (r: usize)
    ensures
        r == secret_size_of(algorithm),
{
    match algorithm {
        Algorithm::HS256 => 32,
        Algorithm::HS384 => 48,
        Algorithm::HS512 => 64,
    }
}

/// The value of a sequence of decimal digits.
pub open spec fn digits_value(d: Seq<char>) -> int
    decreases d.len(),
{
    if d.len() == 0 {
        0
    } else {
        digits_value(d.drop_last()) * 10 + (d.last() as int - '0' as int)
    }
}

/// What `i64::from_str` reads: an optional sign, then one or more decimal
/// digits, whose value must fit in an `i64`.
pub open spec fn decimal_i64(s: Seq<char>) -> Option<i64> {
    let neg = s.len() > 0 && s[0] == '-';
    let digits = if s.len() > 0 && (s[0] == '-' || s[0] == '+') {
        s.drop_first()
    } else {
        s
    };
    let v = if neg {
        -digits_value(digits)
    } else {
        digits_value(digits)
    };
    if digits.len() > 0 && (forall|i: int| 0 <= i < digits.len() ==> '0' <= #[trigger] digits[i] <= '9') && i64::MIN
        <= v <= i64::MAX {
        Some(v as i64)
    } else {
        None
    }
}

/// `str::parse::<i64>`: the decimal integer the text holds.
#[verifier::external_body]
fn parse_i64(s: &str) -> (r: Option<i64>)
    ensures
        r == decimal_i64(s@),
{
    s.parse::<i64>().ok()
}

/// Read a Unix timestamp in seconds from the command line.
pub fn parse_unix_timestamp(s: &str) -> (r: Result<u64, TokenError>)
    ensures
        match decimal_i64(s@) {
            None => r == Err::<u64, TokenError>(TokenError::ExpectedTimestamp),
            Some(v) => if v < 0 {
                r == Err::<u64, TokenError>(TokenError::TimestampOutOfRange)
            } else {
                r == Ok::<u64, TokenError>(v as u64)
            },
        },
{
    match parse_i64(s) {
        None => Err(TokenError::ExpectedTimestamp),
        Some(v) => if v < 0 {
            Err(TokenError::TimestampOutOfRange)
        } else {
            Ok(v as u64)
        },
    }
}

} // verus!
