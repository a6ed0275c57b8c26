//! Size decoding of HP 48 binary objects.
//!
//! An object starts with a five-nibble prolog that names its family. The
//! family decides how the object's length in nibbles is found: from a table,
//! from a length field, by decoding a nested object, by looking for the
//! terminator, or by walking a directory.

use crate::crc::{checksum, spec_checksum};
use crate::nibbles::{byte_of, bytes_to_nibbles, field_value, is_nibble_seq, to_nibbles};
use crate::text::{decimal_digits, hex_digits, push_decimal, push_hex};
use vstd::prelude::*;
use vstd::slice::slice_subrange;

verus! {

/// Why an object could not be decoded.
#[derive(Clone, Copy, Debug, PartialEq, Eq, Structural)]
pub enum ObjectError {
    /// The data ends before the structure being decoded does.
    TruncatedObject,
    /// The prolog is not one of the known object families.
    UnrecognizedPrologue,
    /// The file does not carry the `HPHP48` signature.
    UnsupportedFormat,
}

/// How the length of an object is found, by family.
#[derive(Clone, Copy, Debug, PartialEq, Eq, Structural)]
pub enum LengthState {
    /// A five-nibble length field follows the prolog.
    SizeNext,
    /// A counted name follows the prolog, then a nested object.
    ASCICNext,
    /// The object is a directory of named objects.
    DirNext,
    /// The object runs up to its terminator.
    FindEndMarker,
    /// The family has one fixed length.
    Fixed,
}

/// Binary integer.
pub const DOBINT: u32 = 0x2911;

/// Real number.
pub const DOREAL: u32 = 0x2933;

/// Extended real number.
pub const DOEREL: u32 = 0x2955;

/// Complex number.
pub const DOCMP: u32 = 0x2977;

/// Extended complex number.
pub const DOECMP: u32 = 0x299d;

/// Character.
pub const DOCHAR: u32 = 0x29bf;

/// ROM pointer.
pub const DOROMP: u32 = 0x2e92;

/// Array.
pub const DOARRY: u32 = 0x29e8;

/// Linked array.
pub const DOLNKARRY: u32 = 0x2a0a;

/// Character string.
pub const DOCSTR: u32 = 0x2a2c;

/// Hex string.
pub const DOHSTR: u32 = 0x2a4e;

/// Graphics object.
pub const DOGROB: u32 = 0x2b1e;

/// Library.
pub const DOLIB: u32 = 0x2b40;

/// Backup.
pub const DOBAK: u32 = 0x2b62;

/// Extension.
pub const DOEXT0: u32 = 0x2b88;

/// Code.
pub const DOCODE: u32 = 0x2dcc;

/// Global name.
pub const DOIDNT: u32 = 0x2e48;

/// Local name.
pub const DOLAM: u32 = 0x2e6d;

/// Tagged object.
pub const DOTAG: u32 = 0x2afc;

/// Unit.
pub const DOEXT: u32 = 0x2ada;

/// Program.
pub const DOCOL: u32 = 0x2d9d;

/// Algebraic.
pub const DOSYMB: u32 = 0x2ab8;

/// List.
pub const DOLIST: u32 = 0x2a74;

/// Directory.
pub const DORRP: u32 = 0x2a96;

/// The terminator of a composite object as the scan sees it: the address
/// `0x0312B`, nibbles reversed.
pub const END_MARKER: u32 = 0xb2130;

/// Nibbles before the first entry of a directory: prolog, attached library,
/// offset and terminator.
pub const DIR_HEADER: usize = 18;

/// The longest input the decoder takes, in nibbles.
pub const MAX_NIBBLES: usize = 0x8000_0000;

/// The family of a prolog, `None` for a prolog that is not known.
pub open spec fn spec_prolog_to_length(prolog: int) -> Option<LengthState> {
    if prolog == DOBINT || prolog == DOREAL || prolog == DOEREL || prolog == DOCMP || prolog
        == DOECMP || prolog == DOCHAR || prolog == DOROMP {
        Some(LengthState::Fixed)
    } else if prolog == DOARRY || prolog == DOLNKARRY || prolog == DOCSTR || prolog == DOHSTR
        || prolog == DOGROB || prolog == DOLIB || prolog == DOBAK || prolog == DOEXT0 || prolog
        == DOCODE {
        Some(LengthState::SizeNext)
    } else if prolog == DOIDNT || prolog == DOLAM || prolog == DOTAG {
        Some(LengthState::ASCICNext)
    } else if prolog == DOEXT || prolog == DOCOL || prolog == DOSYMB || prolog == DOLIST {
        Some(LengthState::FindEndMarker)
    } else if prolog == DORRP {
        Some(LengthState::DirNext)
    } else {
        None
    }
}

/// The length of an object of a fixed-length family, prolog included. Every
/// prolog of that family has an entry; any other prolog is not recognised.
pub open spec fn spec_fixed_length(prolog: int) -> Result<nat, ObjectError> {
    if prolog == DOBINT {
        Ok(10)
    } else if prolog == DOREAL {
        Ok(21)
    } else if prolog == DOEREL {
        Ok(26)
    } else if prolog == DOCMP {
        Ok(37)
    } else if prolog == DOECMP {
        Ok(47)
    } else if prolog == DOCHAR {
        Ok(7)
    } else if prolog == DOROMP {
        Ok(11)
    } else {
        Err(ObjectError::UnrecognizedPrologue)
    }
}

/// The prolog of an object: its first five nibbles as a number.
pub open spec fn spec_prolog(s: Seq<u8>) -> Result<nat, ObjectError> {
    if s.len() < 5 {
        Err(ObjectError::TruncatedObject)
    } else {
        Ok(field_value(s, 0) as nat)
    }
}

/// A length, where the input holds that many nibbles; an object that would
/// pass the end of the input is truncated.
pub open spec fn within(n: int, s: Seq<u8>) -> Result<nat, ObjectError> {
    if n > s.len() {
        Err(ObjectError::TruncatedObject)
    } else {
        Ok(n as nat)
    }
}

/// The length of an object with a length field: the field counts itself and
/// what follows it, so the prolog's five nibbles are added. All of the
/// object must be there.
pub open spec fn spec_read_size(s: Seq<u8>) -> Result<nat, ObjectError> {
    if s.len() < 10 {
        Err(ObjectError::TruncatedObject)
    } else {
        within(field_value(s, 5) + 5, s)
    }
}

/// The length of an object of a fixed-length family at the start of `s`:
/// the length of its prolog from the table. All of the object must be
/// there.
pub open spec fn spec_fixed_size(s: Seq<u8>) -> Result<nat, ObjectError> {
    match spec_fixed_length(field_value(s, 0)) {
        Ok(n) => within(n as int, s),
        Err(e) => Err(e),
    }
}

/// The character count of a counted name that starts at `at`.
pub open spec fn name_count(s: Seq<u8>, at: int) -> int {
    byte_of(s[at], s[at + 1])
}

/// Nibbles taken by a name with a leading count: the count byte and the
/// characters.
pub open spec fn ascic_region_len(count: int) -> int {
    2 + 2 * count
}

/// Nibbles taken by a name with a leading and a trailing count.
pub open spec fn ascix_region_len(count: int) -> int {
    2 + 2 * count + 2
}

/// The nibbles of a name with a leading count.
pub open spec fn ascic_encode(name: Seq<u8>) -> Seq<u8> {
    seq![(name.len() % 16) as u8, (name.len() / 16) as u8] + bytes_to_nibbles(name)
}

/// The nibbles of a name with a leading and a trailing count.
pub open spec fn ascix_encode(name: Seq<u8>) -> Seq<u8> {
    ascic_encode(name) + seq![(name.len() % 16) as u8, (name.len() / 16) as u8]
}

/// The nibble at `i`, or 0 where the sequence has none.
pub open spec fn nibble_or_zero(s: Seq<u8>, i: int) -> int {
    if 0 <= i < s.len() {
        s[i] as int
    } else {
        0
    }
}

/// The 20-bit address that the scan holds once it has taken in nibble `pos`:
/// the last five nibbles, the newest lowest.
pub open spec fn scan_address(s: Seq<u8>, pos: int) -> int {
    nibble_or_zero(s, pos) + 16 * nibble_or_zero(s, pos - 1) + 256 * nibble_or_zero(s, pos - 2)
        + 4096 * nibble_or_zero(s, pos - 3) + 65536 * nibble_or_zero(s, pos - 4)
}

/// The length of an object that runs up to its terminator: the terminator
/// must end at the last nibble, or at the one before it where the data was
/// padded to a whole byte.
pub open spec fn spec_end_marker_size(s: Seq<u8>) -> Result<nat, ObjectError> {
    if s.len() >= 2 && scan_address(s, s.len() - 2) == END_MARKER {
        Ok((s.len() - 1) as nat)
    } else if s.len() >= 1 && scan_address(s, s.len() - 1) == END_MARKER {
        Ok(s.len())
    } else {
        Err(ObjectError::TruncatedObject)
    }
}

/// Nibbles of `s` from `index` on, 0 where `index` is past the end.
pub open spec fn nibbles_left(s: Seq<u8>, index: int) -> nat {
    if index <= s.len() {
        (s.len() - index) as nat
    } else {
        0
    }
}

/// The length in nibbles of the object at the start of `s`, prolog
/// included. All of the object must be in `s`, and so must every object
/// nested in it: a length that would pass the end of the input is no length
/// but a truncated object.
pub open spec fn spec_object_size(s: Seq<u8>) -> Result<nat, ObjectError>
    decreases s.len(), s.len() + 2,
{
    if s.len() < 5 {
        Err(ObjectError::TruncatedObject)
    } else {
        let prolog = field_value(s, 0);
        match spec_prolog_to_length(prolog) {
            None => Err(ObjectError::UnrecognizedPrologue),
            Some(LengthState::SizeNext) => spec_read_size(s),
            Some(LengthState::ASCICNext) => spec_ascic_size(s),
            Some(LengthState::DirNext) => spec_read_dir_size(s),
            Some(LengthState::Fixed) => spec_fixed_size(s),
            Some(LengthState::FindEndMarker) => spec_end_marker_size(s),
        }
    }
}

/// The length of an object whose prolog is followed by a counted name and a
/// nested object: the prolog, the count byte, the characters and the nested
/// object. The count is read behind the prolog, and the nested object
/// behind the characters.
pub open spec fn spec_ascic_size(s: Seq<u8>) -> Result<nat, ObjectError>
    decreases s.len(), 1nat,
{
    if s.len() < 7 {
        Err(ObjectError::TruncatedObject)
    } else {
        let region = ascic_region_len(name_count(s, 5));
        if s.len() - 5 < region {
            Err(ObjectError::TruncatedObject)
        } else {
            match spec_object_size(s.skip(5 + region)) {
                Ok(inner) => Ok((5 + region + inner) as nat),
                Err(e) => Err(e),
            }
        }
    }
}

/// The length of a directory entry without its offset: a name with a
/// leading and a trailing count, then the named object.
pub open spec fn spec_ascix_size(s: Seq<u8>) -> Result<nat, ObjectError>
    decreases s.len(), 1nat,
{
    if s.len() < 2 {
        Err(ObjectError::TruncatedObject)
    } else {
        let region = ascix_region_len(name_count(s, 0));
        if s.len() < region {
            Err(ObjectError::TruncatedObject)
        } else {
            match spec_object_size(s.skip(region)) {
                Ok(inner) => Ok((region + inner) as nat),
                Err(e) => Err(e),
            }
        }
    }
}

/// The length of a directory. The header must be there; the entries are
/// walked from behind it.
pub open spec fn spec_read_dir_size(s: Seq<u8>) -> Result<nat, ObjectError>
    decreases s.len(), s.len() + 1,
{
    if s.len() < DIR_HEADER {
        Err(ObjectError::TruncatedObject)
    } else {
        spec_dir_size(s, DIR_HEADER as int)
    }
}

/// The length of a directory whose next entry starts at `index`. While at
/// least a header's worth of nibbles is left, an entry and its five-nibble
/// offset are passed over; the last entry has no offset, so five nibbles
/// are taken off at the end.
pub open spec fn spec_dir_size(s: Seq<u8>, index: int) -> Result<nat, ObjectError>
    decreases s.len(), nibbles_left(s, index) + 1,
    when index >= DIR_HEADER
{
    if s.len() - index < DIR_HEADER {
        Ok((index - 5) as nat)
    } else {
        match spec_ascix_size(s.skip(index)) {
            Ok(size) => spec_dir_size(s, index + size + 5),
            Err(e) => Err(e),
        }
    }
}

/// A decoded length as a mathematical integer.
pub open spec fn widen(r: Result<u32, ObjectError>) -> Result<nat, ObjectError> {
    match r {
        Ok(n) => Ok(n as nat),
        Err(e) => Err(e),
    }
}

/// Appending a nibble to a 16-bit number by shift and or is multiplying by 16
/// and adding.
proof fn lemma_append_nibble(v: u32, n: u8)
    by (bit_vector)
    requires
        v < 0x10000,
        n < 16,
    ensures
        (v << 4) | (n as u32) == v * 16 + n,
{
}

/// Reads the five-nibble field that starts at `at`.
fn read_field(nibs: &[u8], at: usize) -> (v: u32)
    requires
        is_nibble_seq(nibs@),
        at + 5 <= nibs.len(),
    ensures
        v == field_value(nibs@, at as int),
        v <= 0xfffff,
{
    let mut v: u32 = nibs[at + 4] as u32;
    proof {
        lemma_append_nibble(v, nibs[at + 3]);
    }
    v = (v << 4) | nibs[at + 3] as u32;
    proof {
        lemma_append_nibble(v, nibs[at + 2]);
    }
    v = (v << 4) | nibs[at + 2] as u32;
    proof {
        lemma_append_nibble(v, nibs[at + 1]);
    }
    v = (v << 4) | nibs[at + 1] as u32;
    proof {
        lemma_append_nibble(v, nibs[at as int]);
    }
    v = (v << 4) | nibs[at] as u32;
    v
}

/// Reads the character count of a counted name that starts at `at`.
fn read_count(nibs: &[u8], at: usize) -> (count: usize)
    requires
        is_nibble_seq(nibs@),
        at + 2 <= nibs.len(),
    ensures
        count == name_count(nibs@, at as int),
        count <= 255,
{
    nibs[at] as usize + 16 * (nibs[at + 1] as usize)
}

/// The family of a prolog, `None` for a prolog that is not known.
pub fn prolog_to_length(prolog: u32) -> (state: Option<LengthState>)
    ensures
        state == spec_prolog_to_length(prolog as int),
{
    if prolog == DOBINT || prolog == DOREAL || prolog == DOEREL || prolog == DOCMP || prolog
        == DOECMP || prolog == DOCHAR || prolog == DOROMP {
        Some(LengthState::Fixed)
    } else if prolog == DOARRY || prolog == DOLNKARRY || prolog == DOCSTR || prolog == DOHSTR
        || prolog == DOGROB || prolog == DOLIB || prolog == DOBAK || prolog == DOEXT0 || prolog
        == DOCODE {
        Some(LengthState::SizeNext)
    } else if prolog == DOIDNT || prolog == DOLAM || prolog == DOTAG {
        Some(LengthState::ASCICNext)
    } else if prolog == DOEXT || prolog == DOCOL || prolog == DOSYMB || prolog == DOLIST {
        Some(LengthState::FindEndMarker)
    } else if prolog == DORRP {
        Some(LengthState::DirNext)
    } else {
        None
    }
}

/// The length of an object of a fixed-length family, prolog included.
pub fn prolog_to_fixed_length(prolog: u32) -> (r: Result<u32, ObjectError>)
    ensures
        widen(r) == spec_fixed_length(prolog as int),
        spec_prolog_to_length(prolog as int) == Some(LengthState::Fixed) <==> r is Ok,
        r matches Ok(n) ==> 7 <= n <= 47,
{
    if prolog == DOBINT {
        Ok(10)
    } else if prolog == DOREAL {
        Ok(21)
    } else if prolog == DOEREL {
        Ok(26)
    } else if prolog == DOCMP {
        Ok(37)
    } else if prolog == DOECMP {
        Ok(47)
    } else if prolog == DOCHAR {
        Ok(7)
    } else if prolog == DOROMP {
        Ok(11)
    } else {
        Err(ObjectError::UnrecognizedPrologue)
    }
}

/// Reads the length field after the prolog and adds the prolog's length.
/// A length that passes the end of `nibs` means a truncated object.
pub fn read_size(nibs: &[u8]) -> (r: Result<u32, ObjectError>)
    requires
        is_nibble_seq(nibs@),
    ensures
        widen(r) == spec_read_size(nibs@),
        r matches Ok(n) ==> 5 <= n <= nibs.len(),
{
    if nibs.len() < 10 {
        return Err(ObjectError::TruncatedObject);
    }
    let length: u32 = read_field(nibs, 5);
    if (length + 5) as usize > nibs.len() {
        return Err(ObjectError::TruncatedObject);
    }
    Ok(length + 5)
}

/// Reads the prolog: the first five nibbles, least significant first.
pub fn get_prolog(nibs: &[u8]) -> (r: Result<u32, ObjectError>)
    requires
        is_nibble_seq(nibs@),
    ensures
        widen(r) == spec_prolog(nibs@),
        r matches Ok(p) ==> p <= 0xfffff,
{
    if nibs.len() < 5 {
        return Err(ObjectError::TruncatedObject);
    }
    Ok(read_field(nibs, 0))
}

/// Decodes the length in nibbles of the object at the start of `nibs`.
///
/// A length that is returned counts at least a prolog and never exceeds the
/// number of nibbles in `nibs`: an object that would pass the end of the
/// input, by its own length or by that of an object nested in it, is
/// truncated.
pub fn calc_object_size(nibs: &[u8]) -> (r: Result<u32, ObjectError>)
    requires
        is_nibble_seq(nibs@),
        nibs.len() <= MAX_NIBBLES,
    ensures
        widen(r) == spec_object_size(nibs@),
        r matches Ok(n) ==> 5 <= n <= nibs.len(),
    decreases nibs.len(), nibs.len() + 2,
{
    let prolog: u32 = match get_prolog(nibs) {
        Ok(p) => p,
        Err(e) => {
            return Err(e);
        },
    };
    match prolog_to_length(prolog) {
        None => Err(ObjectError::UnrecognizedPrologue),
        Some(LengthState::SizeNext) => read_size(nibs),
        Some(LengthState::ASCICNext) => read_ascic_size(nibs),
        Some(LengthState::DirNext) => read_dir_size(nibs),
        Some(LengthState::Fixed) => match prolog_to_fixed_length(prolog) {
            Ok(n) => {
                if n as usize > nibs.len() {
                    Err(ObjectError::TruncatedObject)
                } else {
                    Ok(n)
                }
            },
            Err(e) => Err(e),
        },
        Some(LengthState::FindEndMarker) => read_size_to_end_marker(nibs),
    }
}

/// Decodes the length of an object whose prolog is followed by a counted
/// name and a nested object.
pub fn read_ascic_size(nibs: &[u8]) -> (r: Result<u32, ObjectError>)
    requires
        is_nibble_seq(nibs@),
        nibs.len() <= MAX_NIBBLES,
    ensures
        widen(r) == spec_ascic_size(nibs@),
        r matches Ok(n) ==> 12 <= n <= nibs.len(),
    decreases nibs.len(), 1nat,
{
    if nibs.len() < 7 {
        return Err(ObjectError::TruncatedObject);
    }
    let count: usize = read_count(nibs, 5);
    let region: usize = 2 + 2 * count;
    if nibs.len() - 5 < region {
        return Err(ObjectError::TruncatedObject);
    }
    let rest = slice_subrange(nibs, 5 + region, nibs.len());
    assert(rest@ == nibs@.skip(5 + region));
    match calc_object_size(rest) {
        Ok(inner) => Ok(5 + region as u32 + inner),
        Err(e) => Err(e),
    }
}

/// Decodes the length of a directory entry without its offset: a name with
/// a leading and a trailing count, then the named object.
pub fn read_ascix_size(nibs: &[u8]) -> (r: Result<u32, ObjectError>)
    requires
        is_nibble_seq(nibs@),
        nibs.len() <= MAX_NIBBLES,
    ensures
        widen(r) == spec_ascix_size(nibs@),
        r matches Ok(n) ==> 9 <= n <= nibs.len(),
    decreases nibs.len(), 1nat,
{
    if nibs.len() < 2 {
        return Err(ObjectError::TruncatedObject);
    }
    let count: usize = read_count(nibs, 0);
    let region: usize = 2 + 2 * count + 2;
    if nibs.len() < region {
        return Err(ObjectError::TruncatedObject);
    }
    let rest = slice_subrange(nibs, region, nibs.len());
    assert(rest@ == nibs@.skip(region as int));
    match calc_object_size(rest) {
        Ok(inner) => Ok(region as u32 + inner),
        Err(e) => Err(e),
    }
}

/// Decodes the length of an object that runs up to its terminator, by
/// scanning for the terminator's address.
pub fn read_size_to_end_marker(nibs: &[u8]) -> (r: Result<u32, ObjectError>)
    requires
        is_nibble_seq(nibs@),
        nibs.len() <= MAX_NIBBLES,
    ensures
        widen(r) == spec_end_marker_size(nibs@),
        r matches Ok(n) ==> 5 <= n <= nibs.len(),
{
    let mut mem_addr: u32 = 0;
    let mut pos: usize = 0;
    while pos < nibs.len()
        invariant
            pos <= nibs.len() <= MAX_NIBBLES,
            is_nibble_seq(nibs@),
            mem_addr == scan_address(nibs@, pos - 1),
            pos + 1 >= nibs.len() >= 2 ==> scan_address(nibs@, nibs.len() - 2) != END_MARKER,
            pos >= nibs.len() >= 1 ==> scan_address(nibs@, nibs.len() - 1) != END_MARKER,
        decreases nibs.len() - pos,
    {
        let nibble: u8 = nibs[pos];
        proof {
            lemma_scan_address_next(nibs@, pos as int);
            lemma_scan_step(mem_addr, nibble);
        }
        mem_addr = ((mem_addr << 4) | nibble as u32) & 0xfffffu32;
        if mem_addr == END_MARKER && (pos + 1 == nibs.len() || pos + 2 == nibs.len()) {
            return Ok(pos as u32 + 1);
        }
        pos += 1;
    }
    Err(ObjectError::TruncatedObject)
}

/// A nibble at or before `pos` is a 4-bit value, and so is the 0 that stands
/// in where there is none.
proof fn lemma_nibble_or_zero(s: Seq<u8>, i: int)
    requires
        is_nibble_seq(s),
    ensures
        0 <= nibble_or_zero(s, i) < 16,
{
    if 0 <= i < s.len() {
        assert(s[i] < 16);
    }
}

/// The address once nibble `pos` is taken in: the four newest nibbles of
/// the address before move up and the new nibble comes in below. The
/// terminator's address needs five nibbles, so it is not there before the
/// fifth.
proof fn lemma_scan_address_next(s: Seq<u8>, pos: int)
    requires
        is_nibble_seq(s),
        0 <= pos < s.len(),
    ensures
        0 <= scan_address(s, pos - 1) <= 0xfffff,
        scan_address(s, pos) == (scan_address(s, pos - 1) % 0x10000) * 16 + s[pos],
        scan_address(s, pos) == END_MARKER ==> pos >= 4,
{
    lemma_nibble_or_zero(s, pos);
    lemma_nibble_or_zero(s, pos - 1);
    lemma_nibble_or_zero(s, pos - 2);
    lemma_nibble_or_zero(s, pos - 3);
    lemma_nibble_or_zero(s, pos - 4);
    lemma_nibble_or_zero(s, pos - 5);
    let low = nibble_or_zero(s, pos - 1) + 16 * nibble_or_zero(s, pos - 2) + 256 * nibble_or_zero(
        s,
        pos - 3,
    ) + 4096 * nibble_or_zero(s, pos - 4);
    let top = nibble_or_zero(s, pos - 5);
    assert(scan_address(s, pos - 1) == 0x10000 * top + low);
    assert(0 <= low < 0x10000);
    vstd::arithmetic::div_mod::lemma_fundamental_div_mod_converse(
        scan_address(s, pos - 1),
        0x10000,
        top,
        low,
    );
    assert(scan_address(s, pos) == low * 16 + nibble_or_zero(s, pos));
}

/// Shifting a nibble into a 20-bit address drops the address's top nibble.
proof fn lemma_scan_step(addr: u32, n: u8)
    by (bit_vector)
    requires
        addr <= 0xfffff,
        n < 16,
    ensures
        ((addr << 4) | (n as u32)) & 0xfffffu32 == (addr % 0x10000) * 16 + n,
{
}

/// Decodes the length of a directory by walking its entries. A directory
/// that is shorter than its header is truncated.
pub fn read_dir_size(nibs: &[u8]) -> (r: Result<u32, ObjectError>)
    requires
        is_nibble_seq(nibs@),
        nibs.len() <= MAX_NIBBLES,
    ensures
        widen(r) == spec_read_dir_size(nibs@),
        r matches Ok(n) ==> 13 <= n <= nibs.len(),
    decreases nibs.len(), 0nat,
{
    if nibs.len() < DIR_HEADER {
        return Err(ObjectError::TruncatedObject);
    }
    let mut index: usize = DIR_HEADER;
    while index <= nibs.len() && nibs.len() - index >= DIR_HEADER
        invariant
            is_nibble_seq(nibs@),
            nibs.len() <= MAX_NIBBLES,
            DIR_HEADER <= index <= nibs.len() + 5,
            DIR_HEADER <= nibs.len(),
            spec_dir_size(nibs@, DIR_HEADER as int) == spec_dir_size(nibs@, index as int),
        decreases nibbles_left(nibs@, index as int),
    {
        let entry = slice_subrange(nibs, index, nibs.len());
        assert(entry@ == nibs@.skip(index as int));
        match read_ascix_size(entry) {
            Ok(size) => {
                index = index + size as usize + 5;
            },
            Err(e) => {
                return Err(e);
            },
        }
    }
    Ok((index - 5) as u32)
}

/// What is known of an object file once it has been decoded.
#[derive(Clone, Debug, PartialEq, Eq)]
pub struct ObjectInfo {
    /// The ROM revision character of the file header.
    pub romrev: char,
    /// The object's checksum as the calculator writes it: `#`, upper-case
    /// hexadecimal digits, `h`.
    pub crc: String,
    /// The object's length in nibbles.
    pub length: u32,
}

/// The longest file that `crc_file` takes, in bytes: the header and
/// `MAX_NIBBLES` nibbles of object.
pub const MAX_FILE_BYTES: usize = 0x4000_0008;

/// The file starts with the ASCII signature `HPHP48`.
pub open spec fn has_signature(file: Seq<u8>) -> bool {
    &&& file.len() >= 6
    &&& file[0] == 0x48
    &&& file[1] == 0x50
    &&& file[2] == 0x48
    &&& file[3] == 0x50
    &&& file[4] == 0x34
    &&& file[5] == 0x38
}

/// The nibbles of the object in a file: what follows the 8-byte header.
pub open spec fn object_nibbles(file: Seq<u8>) -> Seq<u8> {
    bytes_to_nibbles(file.skip(8))
}

/// The length in nibbles of the object in a file. A file without the
/// signature is not supported, a file of under 12 bytes is too short for
/// any object, and all of the object must be in the file.
pub open spec fn spec_file_object_size(file: Seq<u8>) -> Result<nat, ObjectError> {
    if !has_signature(file) {
        Err(ObjectError::UnsupportedFormat)
    } else if file.len() < 12 {
        Err(ObjectError::TruncatedObject)
    } else {
        spec_object_size(object_nibbles(file))
    }
}

/// A checksum in the calculator's notation for numbers.
pub open spec fn crc_literal(crc: nat) -> Seq<char> {
    seq!['#'] + hex_digits(crc) + seq!['h']
}

/// The report line of an object.
pub open spec fn spec_report(info: ObjectInfo) -> Seq<char> {
    "ROM Revision: "@.push(info.romrev) + ", Object CRC: "@ + info.crc@
        + ", Object length (bytes): "@ + decimal_digits((info.length / 2) as nat) + (if info.length
        % 2 == 0 {
        ".0"@
    } else {
        ".5"@
    })
}

impl ObjectInfo {
    /// The report line of the object: ROM revision, checksum and length in
    /// bytes, the length with one decimal place.
    pub fn report(&self) -> (line: String)
        ensures
            line@ == spec_report(*self),
    {
        let mut line = String::new();
        line.push_str("ROM Revision: ");
        line.push(self.romrev);
        line.push_str(", Object CRC: ");
        line.push_str(self.crc.as_str());
        line.push_str(", Object length (bytes): ");
        push_decimal(&mut line, (self.length / 2) as u64);
        if self.length % 2 == 0 {
            line.push_str(".0");
        } else {
            line.push_str(".5");
        }
        line
    }
}

/// Writes a checksum in the calculator's notation for numbers.
pub fn crc_to_literal(crc: u32) -> (text: String)
    ensures
        text@ == crc_literal(crc as nat),
{
    let mut text = String::new();
    text.push('#');
    push_hex(&mut text, crc as u64);
    text.push('h');
    text
}

/// Decodes the object in the contents of a file: its ROM revision, its
/// length, and the checksum over exactly that many nibbles.
pub fn crc_file(file_contents: &[u8]) -> (r: Result<ObjectInfo, ObjectError>)
    requires
        file_contents.len() <= MAX_FILE_BYTES,
    ensures
        match r {
            Ok(info) => {
                &&& spec_file_object_size(file_contents@) == Ok::<nat, ObjectError>(
                    info.length as nat,
                )
                &&& 5 <= info.length <= object_nibbles(file_contents@).len()
                &&& info.romrev == file_contents@[7] as char
                &&& info.crc@ == crc_literal(
                    spec_checksum(object_nibbles(file_contents@).take(info.length as int)) as nat,
                )
            },
            Err(e) => spec_file_object_size(file_contents@) == Err::<nat, ObjectError>(e),
        },
{
    if !(file_contents.len() >= 6 && file_contents[0] == 0x48 && file_contents[1] == 0x50
        && file_contents[2] == 0x48 && file_contents[3] == 0x50 && file_contents[4] == 0x34
        && file_contents[5] == 0x38) {
        return Err(ObjectError::UnsupportedFormat);
    }
    if file_contents.len() < 12 {
        return Err(ObjectError::TruncatedObject);
    }
    let romrev: char = file_contents[7] as char;
    let payload = slice_subrange(file_contents, 8, file_contents.len());
    assert(payload@ == file_contents@.skip(8));
    let nibbles: Vec<u8> = to_nibbles(payload);
    let object_length: u32 = match calc_object_size(nibbles.as_slice()) {
        Ok(n) => n,
        Err(e) => {
            return Err(e);
        },
    };
    let crc: u32 = checksum(nibbles.as_slice(), object_length as usize);
    Ok(ObjectInfo { romrev, crc: crc_to_literal(crc), length: object_length })
}

/// A length that is decoded counts at least a prolog and never exceeds the
/// number of nibbles that the input holds.
pub proof fn lemma_object_size_bounds(s: Seq<u8>)
    requires
        is_nibble_seq(s),
    ensures
        spec_object_size(s) matches Ok(n) ==> 5 <= n <= s.len(),
    decreases s.len(), s.len() + 2,
{
    if s.len() >= 5 {
        match spec_prolog_to_length(field_value(s, 0)) {
            Some(LengthState::ASCICNext) => {
                lemma_ascic_size_bounds(s);
            },
            Some(LengthState::DirNext) => {
                if s.len() >= DIR_HEADER {
                    lemma_dir_size_bounds(s, DIR_HEADER as int);
                }
            },
            Some(LengthState::FindEndMarker) => {
                lemma_end_marker_size_bounds(s);
            },
            Some(LengthState::SizeNext) => {
                if s.len() >= 10 {
                    assert(s[5] < 16 && s[6] < 16 && s[7] < 16 && s[8] < 16 && s[9] < 16);
                }
            },
            _ => {},
        }
    }
}

/// An object that runs up to its terminator is at least as long as the
/// terminator, and no longer than the input.
pub proof fn lemma_end_marker_size_bounds(s: Seq<u8>)
    requires
        is_nibble_seq(s),
    ensures
        spec_end_marker_size(s) matches Ok(n) ==> 5 <= n <= s.len(),
{
    if s.len() >= 2 {
        lemma_scan_address_next(s, s.len() - 2);
    }
    if s.len() >= 1 {
        lemma_scan_address_next(s, s.len() - 1);
    }
}

/// The bounds of an object with a counted name.
proof fn lemma_ascic_size_bounds(s: Seq<u8>)
    requires
        is_nibble_seq(s),
    ensures
        spec_ascic_size(s) matches Ok(n) ==> 12 <= n <= s.len(),
    decreases s.len(), 1nat,
{
    if s.len() >= 7 {
        assert(s[5] < 16 && s[6] < 16);
        let region = ascic_region_len(name_count(s, 5));
        if s.len() - 5 >= region {
            lemma_object_size_bounds(s.skip(5 + region));
        }
    }
}

/// The bounds of a directory entry.
proof fn lemma_ascix_size_bounds(s: Seq<u8>)
    requires
        is_nibble_seq(s),
    ensures
        spec_ascix_size(s) matches Ok(n) ==> 9 <= n <= s.len(),
    decreases s.len(), 1nat,
{
    if s.len() >= 2 {
        assert(s[0] < 16 && s[1] < 16);
        let region = ascix_region_len(name_count(s, 0));
        if s.len() >= region {
            lemma_object_size_bounds(s.skip(region));
        }
    }
}

/// The bounds of a directory that is walked from `index` on.
proof fn lemma_dir_size_bounds(s: Seq<u8>, index: int)
    requires
        is_nibble_seq(s),
        DIR_HEADER <= s.len(),
        DIR_HEADER <= index <= s.len() + 5,
    ensures
        spec_dir_size(s, index) matches Ok(n) ==> 13 <= n <= s.len(),
    decreases s.len(), nibbles_left(s, index) + 1,
{
    if s.len() - index >= DIR_HEADER {
        lemma_ascix_size_bounds(s.skip(index));
        match spec_ascix_size(s.skip(index)) {
            Ok(size) => {
                lemma_dir_size_bounds(s, index + size + 5);
            },
            Err(e) => {},
        }
    }
}

/// A counted name gives back its count: the count read from an encoded
/// name of up to 255 characters is the number of characters, with a leading
/// count alone and with a trailing count as well, where both counts agree;
/// and the encoding is as long as the rule for its form says.
pub proof fn lemma_name_count_round_trip(name: Seq<u8>)
    requires
        name.len() <= 255,
    ensures
        name_count(ascic_encode(name), 0) == name.len(),
        ascic_encode(name).len() == ascic_region_len(name.len() as int),
        is_nibble_seq(ascic_encode(name)),
        name_count(ascix_encode(name), 0) == name.len(),
        name_count(ascix_encode(name), ascic_region_len(name.len() as int)) == name.len(),
        ascix_encode(name).len() == ascix_region_len(name.len() as int),
        is_nibble_seq(ascix_encode(name)),
{
    crate::nibbles::lemma_bytes_to_nibbles(name);
    let c = ascic_encode(name);
    let x = ascix_encode(name);
    assert(c[0] == (name.len() % 16) as u8);
    assert(c[1] == (name.len() / 16) as u8);
    assert(x[0] == c[0]);
    assert(x[1] == c[1]);
    let k = ascic_region_len(name.len() as int);
    assert(x[k] == (name.len() % 16) as u8);
    assert(x[k + 1] == (name.len() / 16) as u8);
    assert forall|i: int| 0 <= i < c.len() implies #[trigger] c[i] < 16 by {
        if i >= 2 {
            assert(c[i] == bytes_to_nibbles(name)[i - 2]);
        }
    }
    assert forall|i: int| 0 <= i < x.len() implies #[trigger] x[i] < 16 by {
        if i < c.len() {
            assert(x[i] == c[i]);
        }
    }
}

/// A directory entry decodes to the length of its name and of its object:
/// where an object follows the encoded name of up to 255 characters, the
/// entry's length is the name's, with both counts, plus the object's.
pub proof fn lemma_entry_round_trip(name: Seq<u8>, object: Seq<u8>)
    requires
        name.len() <= 255,
    ensures
        spec_ascix_size(ascix_encode(name) + object) == match spec_object_size(object) {
            Ok(n) => Ok::<nat, ObjectError>((ascix_region_len(name.len() as int) + n) as nat),
            Err(e) => Err(e),
        },
{
    lemma_name_count_round_trip(name);
    let x = ascix_encode(name);
    let entry = x + object;
    assert(entry[0] == x[0]);
    assert(entry[1] == x[1]);
    assert(entry.skip(x.len() as int) =~= object);
}

/// An object with a counted name decodes to the length of its prolog, its
/// name and its nested object: where the encoded name of up to 255
/// characters and an object follow a prolog, the length is the prolog's
/// five nibbles, the name's, with its count, and the nested object's.
pub proof fn lemma_named_object_round_trip(prolog: Seq<u8>, name: Seq<u8>, object: Seq<u8>)
    requires
        prolog.len() == 5,
        name.len() <= 255,
    ensures
        spec_ascic_size(prolog + ascic_encode(name) + object) == match spec_object_size(object) {
            Ok(n) => Ok::<nat, ObjectError>((5 + ascic_region_len(name.len() as int) + n) as nat),
            Err(e) => Err(e),
        },
{
    lemma_name_count_round_trip(name);
    let c = ascic_encode(name);
    let whole = prolog + c + object;
    assert(whole[5] == c[0]);
    assert(whole[6] == c[1]);
    assert(whole.skip(5 + c.len() as int) =~= object);
}

/// A binary integer is ten nibbles long, whatever its five nibbles of
/// value are.
pub proof fn lemma_binary_integer_size(s: Seq<u8>)
    requires
        s.len() >= 10,
        s[0] == 1,
        s[1] == 1,
        s[2] == 9,
        s[3] == 2,
        s[4] == 0,
    ensures
        spec_object_size(s) == Ok::<nat, ObjectError>(10),
{
    assert(field_value(s, 0) == DOBINT);
}

} // verus!
