//! Wire-protocol values: commands, status codes, version packing.

use vstd::prelude::*;
use vstd::string::StringSliceAdditionalSpecFns;

verus! {

/// The 5.5.6 packing of a version: `(major << 11) | (minor << 6) | patch`,
/// computed in 16 bits.
pub open spec fn spec_pack_version(major: u8, minor: u8, patch: u8) -> u16 {
    (((major as u16) << 11u16) | ((minor as u16) << 6u16) | (patch as u16)) as u16
}

/// Pack a semantic version into a `u16` using 5.5.6 encoding.
///
/// Layout: `(major << 11) | (minor << 6) | patch`
/// - major: 0–31, minor: 0–31, patch: 0–63
/// - `0xFFFF` is reserved as "no version" (erased flash sentinel).
pub fn pack_version(major: u8, minor: u8, patch: u8) -> (r: u16)
    ensures
        r == spec_pack_version(major, minor, patch),
        major < 32 && minor < 32 && patch < 64 ==> r == major * 2048 + minor * 64 + patch,
{
    let r: u16 = ((major as u16) << 11u16) | ((minor as u16) << 6u16) | (patch as u16);
    proof {
        if major < 32 && minor < 32 && patch < 64 {
            lemma_pack_arith(major, minor, patch);
        }
    }
    r
}

proof fn lemma_pack_arith(major: u8, minor: u8, patch: u8)
    requires
        major < 32,
        minor < 32,
        patch < 64,
    ensures
        spec_pack_version(major, minor, patch) == major * 2048 + minor * 64 + patch,
{
    let a: u16 = major as u16;
    let b: u16 = minor as u16;
    let c: u16 = patch as u16;
    assert(((a << 11u16) | (b << 6u16) | c) == a * 2048 + b * 64 + c) by (bit_vector)
        requires
            a < 32,
            b < 32,
            c < 64,
    ;
}

/// Unpack a 5.5.6-encoded `u16` into `(major, minor, patch)`.
pub fn unpack_version(v: u16) -> (r: (u8, u8, u8))
    ensures
        r.0 == v / 2048,
        r.1 == (v / 64) % 32,
        r.2 == v % 64,
{
    let major: u8 = ((v >> 11u16) as u8) & 0x1Fu8;
    let minor: u8 = ((v >> 6u16) as u8) & 0x1Fu8;
    let patch: u8 = (v as u8) & 0x3Fu8;
    assert(((v >> 11u16) as u8) & 0x1Fu8 == v / 2048) by (bit_vector);
    assert(((v >> 6u16) as u8) & 0x1Fu8 == (v / 64) % 32) by (bit_vector);
    assert((v as u8) & 0x3Fu8 == v % 64) by (bit_vector);
    (major, minor, patch)
}

/// Unpacking a packed version gives back its components, when each fits its
/// field.
pub proof fn lemma_version_round_trip(major: u8, minor: u8, patch: u8)
    requires
        major < 32,
        minor < 32,
        patch < 64,
    ensures
        ({
            let v = spec_pack_version(major, minor, patch);
            &&& v / 2048 == major
            &&& (v / 64) % 32 == minor
            &&& v % 64 == patch
        }),
{
    lemma_pack_arith(major, minor, patch);
    let v = spec_pack_version(major, minor, patch);
    assert(v / 2048 == major && (v / 64) % 32 == minor && v % 64 == patch) by (nonlinear_arith)
        requires
            v == major * 2048 + minor * 64 + patch,
            major < 32,
            minor < 32,
            patch < 64,
    ;
}

/// Every 16-bit value is the packing of its unpacked components.
pub proof fn lemma_version_unpack_pack(v: u16)
    ensures
        spec_pack_version((v / 2048) as u8, ((v / 64) % 32) as u8, (v % 64) as u8) == v,
{
    let a: u8 = (v / 2048) as u8;
    let b: u8 = ((v / 64) % 32) as u8;
    let c: u8 = (v % 64) as u8;
    assert(a < 32 && b < 32 && c < 64);
    lemma_pack_arith(a, b, c);
    assert(a * 2048 + b * 64 + c == v) by (nonlinear_arith)
        requires
            a == v / 2048,
            b == (v / 64) % 32,
            c == v % 64,
            v < 65536,
    ;
}

/// The erased-flash sentinel `0xFFFF` is the packing of exactly one in-range
/// version, 31.31.63, so no other version collides with it.
pub proof fn lemma_version_sentinel(major: u8, minor: u8, patch: u8)
    requires
        major < 32,
        minor < 32,
        patch < 64,
    ensures
        spec_pack_version(major, minor, patch) == 0xFFFF <==> (major == 31 && minor == 31 && patch
            == 63),
{
    lemma_pack_arith(major, minor, patch);
}

/// Decimal value of a sequence of ASCII digits.
pub open spec fn decimal_value(s: Seq<u8>) -> nat
    decreases s.len(),
{
    if s.len() == 0 {
        0
    } else {
        decimal_value(s.drop_last()) * 10 + (s.last() - 48) as nat
    }
}

/// Every byte is an ASCII decimal digit.
pub open spec fn all_digits(s: Seq<u8>) -> bool {
    forall|i: int| 0 <= i < s.len() ==> 48 <= #[trigger] s[i] <= 57
}

proof fn lemma_decimal_prefix_le(s: Seq<u8>, i: int)
    requires
        all_digits(s),
        0 <= i <= s.len(),
    ensures
        decimal_value(s.take(i)) <= decimal_value(s),
    decreases s.len() - i,
{
    if i < s.len() {
        lemma_decimal_prefix_le(s, i + 1);
        assert(s.take(i + 1).drop_last() =~= s.take(i));
        assert(s.take(i + 1).last() == s[i]);
    } else {
        assert(s.take(i) =~= s);
    }
}

/// Appending the ASCII digit `d` to a digit string multiplies its value by
/// ten and adds the digit's value `d - '0'`; a single digit `'0'`..`'9'` is
/// worth 0..9.
pub proof fn lemma_decimal_digit(s: Seq<u8>, d: u8)
    requires
        48 <= d <= 57,
    ensures
        decimal_value(s.push(d)) == 10 * decimal_value(s) + (d - 48),
        decimal_value(seq![d]) == d - 48,
        decimal_value(Seq::<u8>::empty()) == 0,
{
    assert(s.push(d).drop_last() =~= s);
    assert(seq![d].drop_last() =~= Seq::<u8>::empty());
    assert(decimal_value(seq![d].drop_last()) == 0);
}

/// Parse a decimal digit sequence into `u8`.
///
/// The string must be non-empty, hold only the digits `0`–`9`, and denote a
/// value of at most 255.
pub fn const_parse_u8(s: &str) -> (r: u8)
    requires
        s.spec_bytes().len() > 0,
        all_digits(s.spec_bytes()),
        decimal_value(s.spec_bytes()) <= 255,
    ensures
        r == decimal_value(s.spec_bytes()),
{
    let bytes: &[u8] = s.as_bytes();
    let mut i: usize = 0;
    let mut result: u16 = 0;
    while i < bytes.len()
        invariant
            bytes@ == s.spec_bytes(),
            all_digits(bytes@),
            decimal_value(bytes@) <= 255,
            i <= bytes.len(),
            result == decimal_value(bytes@.take(i as int)),
        decreases bytes.len() - i,
    {
        let d: u8 = bytes[i];
        proof {
            lemma_decimal_prefix_le(bytes@, i + 1);
            assert(bytes@.take(i + 1).drop_last() =~= bytes@.take(i as int));
            assert(bytes@.take(i + 1).last() == d);
            assert(48 <= bytes@[i as int] <= 57);
        }
        result = result * 10 + (d - 48u8) as u16;
        i = i + 1;
    }
    assert(bytes@.take(bytes.len() as int) =~= bytes@);
    result as u8
}

/// The packed version of three decimal component strings, as a crate's
/// `major.minor.patch` package version is packed.
pub fn pkg_version(major: &str, minor: &str, patch: &str) -> (r: u16)
    requires
        major.spec_bytes().len() > 0,
        all_digits(major.spec_bytes()),
        decimal_value(major.spec_bytes()) <= 255,
        minor.spec_bytes().len() > 0,
        all_digits(minor.spec_bytes()),
        decimal_value(minor.spec_bytes()) <= 255,
        patch.spec_bytes().len() > 0,
        all_digits(patch.spec_bytes()),
        decimal_value(patch.spec_bytes()) <= 255,
    ensures
        r == spec_pack_version(
            decimal_value(major.spec_bytes()) as u8,
            decimal_value(minor.spec_bytes()) as u8,
            decimal_value(patch.spec_bytes()) as u8,
        ),
{
    pack_version(const_parse_u8(major), const_parse_u8(minor), const_parse_u8(patch))
}

/// Commands (host to device).
#[derive(Debug, Clone, Copy, PartialEq, Eq, Structural)]
pub enum Cmd {
    /// Query device info (capacity, erase size, versions, mode).
    Info,
    /// Erase flash at address. First erase transitions Idle to Updating.
    Erase,
    /// Write data at address. Only valid in Updating state.
    Write,
    /// Compute CRC16 over app region and transition to Validating.
    Verify,
    /// Reset the device. `addr=0`: boot app, `addr=1`: enter bootloader.
    Reset,
    /// Flush buffered writes to storage.
    Flush,
}

/// The wire code of a command.
pub open spec fn spec_cmd_code(c: Cmd) -> u8 {
    match c {
        Cmd::Info => 0x00,
        Cmd::Erase => 0x01,
        Cmd::Write => 0x02,
        Cmd::Verify => 0x03,
        Cmd::Reset => 0x04,
        Cmd::Flush => 0x05,
    }
}

impl Cmd {
    /// The command's wire code.
    pub fn code(self) -> (r: u8)
        ensures
            r == spec_cmd_code(self),
    {
        match self {
            Cmd::Info => 0x00,
            Cmd::Erase => 0x01,
            Cmd::Write => 0x02,
            Cmd::Verify => 0x03,
            Cmd::Reset => 0x04,
            Cmd::Flush => 0x05,
        }
    }

    /// The command with wire code `b`, if there is one.
    pub fn from_code(b: u8) -> (r: Option<Cmd>)
        ensures
            r matches Some(c) ==> spec_cmd_code(c) == b,
            r is None <==> !(b <= 0x05),
    {
        match b {
            0x00 => Some(Cmd::Info),
            0x01 => Some(Cmd::Erase),
            0x02 => Some(Cmd::Write),
            0x03 => Some(Cmd::Verify),
            0x04 => Some(Cmd::Reset),
            0x05 => Some(Cmd::Flush),
            _ => None,
        }
    }

    /// Returns true if `b` is a valid command code.
    pub fn is_valid(b: u8) -> (r: bool)
        ensures
            r == (b <= 0x05),
            r <==> exists|c: Cmd| spec_cmd_code(c) == b,
    {
        proof {
            if b <= 0x05 {
                let c = if b == 0 {
                    Cmd::Info
                } else if b == 1 {
                    Cmd::Erase
                } else if b == 2 {
                    Cmd::Write
                } else if b == 3 {
                    Cmd::Verify
                } else if b == 4 {
                    Cmd::Reset
                } else {
                    Cmd::Flush
                };
                assert(spec_cmd_code(c) == b);
            }
        }
        b <= 0x05
    }
}

/// Response status codes (device to host).
#[derive(Debug, Clone, Copy, PartialEq, Eq, Structural)]
pub enum Status {
    /// Frame is a request (not a response).
    Request,
    /// Success.
    Success,
    /// Flash write or erase failed.
    WriteError,
    /// CRC verification failed.
    CrcMismatch,
    /// Address or length out of range.
    AddrOutOfBounds,
    /// Command not valid in current state.
    Unsupported,
    /// Frame payload exceeds maximum size.
    PayloadOverflow,
}

/// The wire code of a status.
pub open spec fn spec_status_code(s: Status) -> u8 {
    match s {
        Status::Request => 0x00,
        Status::Success => 0x01,
        Status::WriteError => 0x02,
        Status::CrcMismatch => 0x03,
        Status::AddrOutOfBounds => 0x04,
        Status::Unsupported => 0x05,
        Status::PayloadOverflow => 0x06,
    }
}

impl Status {
    /// The status's wire code.
    pub fn code(self) -> (r: u8)
        ensures
            r == spec_status_code(self),
    {
        match self {
            Status::Request => 0x00,
            Status::Success => 0x01,
            Status::WriteError => 0x02,
            Status::CrcMismatch => 0x03,
            Status::AddrOutOfBounds => 0x04,
            Status::Unsupported => 0x05,
            Status::PayloadOverflow => 0x06,
        }
    }

    /// The status with wire code `b`, if there is one.
    pub fn from_code(b: u8) -> (r: Option<Status>)
        ensures
            r matches Some(s) ==> spec_status_code(s) == b,
            r is None <==> !(b <= 0x06),
    {
        match b {
            0x00 => Some(Status::Request),
            0x01 => Some(Status::Success),
            0x02 => Some(Status::WriteError),
            0x03 => Some(Status::CrcMismatch),
            0x04 => Some(Status::AddrOutOfBounds),
            0x05 => Some(Status::Unsupported),
            0x06 => Some(Status::PayloadOverflow),
            _ => None,
        }
    }

    /// Returns true if `b` is a valid status code.
    pub fn is_valid(b: u8) -> (r: bool)
        ensures
            r == (b <= 0x06),
            r <==> exists|s: Status| spec_status_code(s) == b,
    {
        proof {
            if b <= 0x06 {
                let s = if b == 0 {
                    Status::Request
                } else if b == 1 {
                    Status::Success
                } else if b == 2 {
                    Status::WriteError
                } else if b == 3 {
                    Status::CrcMismatch
                } else if b == 4 {
                    Status::AddrOutOfBounds
                } else if b == 5 {
                    Status::Unsupported
                } else {
                    Status::PayloadOverflow
                };
                assert(spec_status_code(s) == b);
            }
        }
        b <= 0x06
    }
}

/// Transport IO error.
///
/// Returned when the underlying transport fails. Protocol-level errors (bad
/// CRC, invalid frame) are reported via [`Status`] instead.
#[derive(Debug, PartialEq, Eq, Structural)]
pub struct ReadError;

} // verus!
