//! ELF inspection, for the two targets that matter (linux x86-64 and aarch64,
//! both ELF64 little-endian).
//!
//! Offsets in the model are unbounded integers: an offset that leaves the
//! address space lies past the end of the image like any other.

use crate::number::{write_decimal, write_number};
use crate::text::join_texts;
use vstd::prelude::*;
use vstd::slice::slice_subrange;
use vstd::string::*;

verus! {

pub const ET_DYN: u16 = 3;

pub const PT_LOAD: u32 = 1;

pub const PT_DYNAMIC: u32 = 2;

pub const PT_INTERP: u32 = 3;

pub const DT_NULL: u64 = 0;

pub const DT_NEEDED: u64 = 1;

pub const DT_STRTAB: u64 = 5;

pub const DT_FLAGS_1: u64 = 0x6fff_fffb;

pub const DF_1_PIE: u64 = 0x0800_0000;

/// What the library reads out of an ELF image.
#[derive(Debug)]
pub struct ElfInfo {
    pub is_dyn: bool,
    pub has_pie_flag: bool,
    pub has_interp: bool,
    pub needed: Vec<String>,
}

/// The model of `ElfInfo`.
#[verifier::ext_equal]
pub struct ElfFacts {
    pub is_dyn: bool,
    pub has_pie_flag: bool,
    pub has_interp: bool,
    pub needed: Seq<Seq<char>>,
}

impl View for ElfInfo {
    type V = ElfFacts;

    open spec fn view(&self) -> ElfFacts {
        ElfFacts {
            is_dyn: self.is_dyn,
            has_pie_flag: self.has_pie_flag,
            has_interp: self.has_interp,
            needed: crate::text::texts(self.needed@),
        }
    }
}

/// Why an image could not be read.
#[derive(Debug, Clone, Copy, PartialEq, Eq, Structural)]
pub enum ElfError {
    /// The image is too short for a header, or does not begin with the magic number.
    NotElf,
    /// The image is not of class ELF64.
    NotElf64,
    /// The image is not little-endian.
    NotLittleEndian,
    /// This many bytes were expected where the image had ended.
    Truncated(u64),
    /// No loaded segment holds this virtual address.
    Unmapped(u64),
}

// -- the format --------------------------------------------------------------

/// `count` bytes can be read at `at`.
pub open spec fn readable(bytes: Seq<u8>, at: int, count: int) -> bool {
    0 <= at && at + count <= bytes.len()
}

/// The 16-bit little-endian number at `at`.
pub open spec fn u16_value(bytes: Seq<u8>, at: int) -> u16 {
    (bytes[at] + 0x100 * bytes[at + 1]) as u16
}

/// The 32-bit little-endian number at `at`.
pub open spec fn u32_value(bytes: Seq<u8>, at: int) -> u32 {
    (bytes[at] + 0x100 * bytes[at + 1] + 0x1_0000 * bytes[at + 2] + 0x100_0000 * bytes[at
        + 3]) as u32
}

/// The 64-bit little-endian number at `at`.
pub open spec fn u64_value(bytes: Seq<u8>, at: int) -> u64 {
    (u32_value(bytes, at) + 0x1_0000_0000 * u32_value(bytes, at + 4)) as u64
}

/// The image begins with the ELF magic number and is long enough for a header.
pub open spec fn has_magic(bytes: Seq<u8>) -> bool {
    bytes.len() >= 64 && bytes[0] == 0x7f && bytes[1] == 0x45 && bytes[2] == 0x4c && bytes[3]
        == 0x46
}

/// Where the program headers of an image lie.
pub struct Headers {
    pub offset: u64,
    pub entry_size: u16,
    pub count: u16,
}

/// The program header table that the file header describes.
pub open spec fn headers_of(bytes: Seq<u8>) -> Headers {
    Headers {
        offset: u64_value(bytes, 32),
        entry_size: u16_value(bytes, 54),
        count: u16_value(bytes, 56),
    }
}

impl Headers {
    /// Where the program header `index` begins.
    pub open spec fn at(self, index: int) -> int {
        self.offset + index * self.entry_size
    }
}

/// The type of the segment whose header begins at `at`.
pub open spec fn segment_type(bytes: Seq<u8>, at: int) -> u32 {
    u32_value(bytes, at)
}

/// The file offset of the segment whose header begins at `at`.
pub open spec fn segment_offset(bytes: Seq<u8>, at: int) -> u64 {
    u64_value(bytes, at + 8)
}

/// The virtual address of the segment whose header begins at `at`.
pub open spec fn segment_vaddr(bytes: Seq<u8>, at: int) -> u64 {
    u64_value(bytes, at + 16)
}

/// The size in the file of the segment whose header begins at `at`.
pub open spec fn segment_size(bytes: Seq<u8>, at: int) -> u64 {
    u64_value(bytes, at + 32)
}

/// The first of the headers from `index` on whose fields, up to the file size,
/// do not all lie in the image.
pub open spec fn first_cut_header(bytes: Seq<u8>, headers: Headers, index: int) -> Option<int>
    decreases headers.count - index,
{
    if index >= headers.count {
        None
    } else if !readable(bytes, headers.at(index), 40) {
        Some(index)
    } else {
        first_cut_header(bytes, headers, index + 1)
    }
}

/// One of the first `count` segments is of type `kind`.
pub open spec fn has_segment(bytes: Seq<u8>, headers: Headers, kind: u32, count: int) -> bool {
    exists|i: int|
        #![trigger headers.at(i)]
        0 <= i < count && segment_type(bytes, headers.at(i)) == kind
}

/// The last of the first `count` segments that is of type `kind`.
pub open spec fn last_segment(bytes: Seq<u8>, headers: Headers, kind: u32, count: int) -> Option<
    int,
>
    decreases count,
{
    if count <= 0 {
        None
    } else if segment_type(bytes, headers.at(count - 1)) == kind {
        Some(count - 1)
    } else {
        last_segment(bytes, headers, kind, count - 1)
    }
}

/// The tags and values of the dynamic section from `at` to `end`, up to the
/// `DT_NULL` that closes it or the last entry that lies in the image.
pub open spec fn dynamic_entries(bytes: Seq<u8>, at: int, end: int) -> Seq<(u64, u64)>
    decreases end - at,
{
    if at < 0 || at + 16 > end || at + 16 > bytes.len() || u64_value(bytes, at) == DT_NULL {
        Seq::empty()
    } else {
        seq![(u64_value(bytes, at), u64_value(bytes, at + 8))] + dynamic_entries(
            bytes,
            at + 16,
            end,
        )
    }
}

/// The dynamic section of an image, empty where no segment holds one.
pub open spec fn dynamic_of(bytes: Seq<u8>, headers: Headers) -> Seq<(u64, u64)> {
    match last_segment(bytes, headers, PT_DYNAMIC, headers.count as int) {
        None => Seq::empty(),
        Some(index) => {
            let at = headers.at(index);
            let start = segment_offset(bytes, at) as int;
            dynamic_entries(bytes, start, start + segment_size(bytes, at))
        },
    }
}

/// The value of the last entry with tag `tag`.
pub open spec fn last_value(entries: Seq<(u64, u64)>, tag: u64) -> Option<u64>
    decreases entries.len(),
{
    if entries.len() == 0 {
        None
    } else if entries.last().0 == tag {
        Some(entries.last().1)
    } else {
        last_value(entries.drop_last(), tag)
    }
}

/// The values of the entries with tag `tag`, in order.
pub open spec fn values_of(entries: Seq<(u64, u64)>, tag: u64) -> Seq<u64> {
    entries.filter_map(
        |entry: (u64, u64)|
            if entry.0 == tag {
                Some(entry.1)
            } else {
                None
            },
    )
}

/// The last `DT_FLAGS_1` carries the PIE bit.
pub open spec fn carries_pie(entries: Seq<(u64, u64)>) -> bool {
    match last_value(entries, DT_FLAGS_1) {
        Some(flags) => flags & DF_1_PIE != 0,
        None => false,
    }
}

/// The segment whose header begins at `at` holds the virtual address `vaddr`.
pub open spec fn holds_vaddr(bytes: Seq<u8>, at: int, vaddr: u64) -> bool {
    segment_vaddr(bytes, at) <= vaddr < segment_vaddr(bytes, at) + segment_size(bytes, at)
}

/// The file offset of a virtual address: its place in the first loaded segment,
/// from `index` on, that holds it.
pub open spec fn file_offset(
    bytes: Seq<u8>,
    vaddr: u64,
    headers: Headers,
    index: int,
) -> Result<int, ElfError>
    decreases headers.count - index,
{
    let at = headers.at(index);
    if index >= headers.count {
        Err(ElfError::Unmapped(vaddr))
    } else if !readable(bytes, at, 4) {
        Err(ElfError::Truncated(4))
    } else if segment_type(bytes, at) != PT_LOAD {
        file_offset(bytes, vaddr, headers, index + 1)
    } else if !readable(bytes, at, 40) {
        Err(ElfError::Truncated(8))
    } else if holds_vaddr(bytes, at, vaddr) {
        Ok(vaddr - segment_vaddr(bytes, at) + segment_offset(bytes, at))
    } else {
        file_offset(bytes, vaddr, headers, index + 1)
    }
}

/// The first zero byte at `at` or after it.
pub open spec fn first_zero(bytes: Seq<u8>, at: int) -> Option<int>
    decreases bytes.len() - at,
{
    if at < 0 || at >= bytes.len() {
        None
    } else if bytes[at] == 0 {
        Some(at)
    } else {
        first_zero(bytes, at + 1)
    }
}

/// The text, ended by a zero byte, that begins at `at`.
pub open spec fn text_at(bytes: Seq<u8>, at: int) -> Option<Seq<char>> {
    match first_zero(bytes, at) {
        None => None,
        Some(end) => if vstd::utf8::valid_utf8(bytes.subrange(at, end)) {
            Some(vstd::utf8::decode_utf8(bytes.subrange(at, end)))
        } else {
            None
        },
    }
}

/// The texts of a string table at `table` that begin at the given offsets. An
/// offset at which no text stands is passed over.
pub open spec fn table_texts(bytes: Seq<u8>, table: int, offsets: Seq<u64>) -> Seq<Seq<char>> {
    offsets.filter_map(|offset: u64| text_at(bytes, table + offset))
}

/// The libraries that a dynamic section asks for.
pub open spec fn needed_of(
    bytes: Seq<u8>,
    headers: Headers,
    entries: Seq<(u64, u64)>,
) -> Result<Seq<Seq<char>>, ElfError> {
    let offsets = values_of(entries, DT_NEEDED);
    match last_value(entries, DT_STRTAB) {
        None => Ok(Seq::empty()),
        Some(vaddr) => if offsets.len() == 0 {
            Ok(Seq::empty())
        } else {
            match file_offset(bytes, vaddr, headers, 0) {
                Err(error) => Err(error),
                Ok(table) => Ok(table_texts(bytes, table, offsets)),
            }
        },
    }
}

/// What an image says of itself.
pub open spec fn facts_of(bytes: Seq<u8>) -> Result<ElfFacts, ElfError> {
    let headers = headers_of(bytes);
    let entries = dynamic_of(bytes, headers);
    if !has_magic(bytes) {
        Err(ElfError::NotElf)
    } else if bytes[4] != 2 {
        Err(ElfError::NotElf64)
    } else if bytes[5] != 1 {
        Err(ElfError::NotLittleEndian)
    } else {
        match first_cut_header(bytes, headers, 0) {
            Some(index) => Err(
                ElfError::Truncated(
                    if readable(bytes, headers.at(index), 4) {
                        8
                    } else {
                        4
                    },
                ),
            ),
            None => match needed_of(bytes, headers, entries) {
                Err(error) => Err(error),
                Ok(needed) => Ok(
                    ElfFacts {
                        is_dyn: u16_value(bytes, 16) == ET_DYN,
                        has_pie_flag: carries_pie(entries),
                        has_interp: has_segment(bytes, headers, PT_INTERP, headers.count as int),
                        needed,
                    },
                ),
            },
        }
    }
}

// -- reading -----------------------------------------------------------------

/// The error of `std::str::from_utf8`.
#[verifier::external_type_specification]
#[verifier::external_body]
pub struct ExUtf8Error(std::str::Utf8Error);

/// `std::str::from_utf8` takes the bytes for a text where they are valid UTF-8,
/// and fails where they are not.
pub assume_specification[ std::str::from_utf8 ](bytes: &[u8]) -> (text: Result<
    &str,
    std::str::Utf8Error,
>)
    ensures
        text is Ok <==> vstd::utf8::valid_utf8(bytes@),
        text matches Ok(text) ==> text.spec_bytes() == bytes@,
;

/// The 16-bit little-endian number at `offset`.
pub fn u16_at(bytes: &[u8], offset: u64) -> (number: Result<u16, ElfError>)
    ensures
        match number {
            Ok(value) => readable(bytes@, offset as int, 2) && value == u16_value(
                bytes@,
                offset as int,
            ),
            Err(error) => !readable(bytes@, offset as int, 2) && error == ElfError::Truncated(2),
        },
{
    let len = bytes.len();
    if len < 2 || offset > (len - 2) as u64 {
        return Err(ElfError::Truncated(2));
    }
    let at: usize = offset as usize;
    Ok(bytes[at] as u16 + 0x100 * bytes[at + 1] as u16)
}

/// The 32-bit little-endian number at `offset`.
pub fn u32_at(bytes: &[u8], offset: u64) -> (number: Result<u32, ElfError>)
    ensures
        match number {
            Ok(value) => readable(bytes@, offset as int, 4) && value == u32_value(
                bytes@,
                offset as int,
            ),
            Err(error) => !readable(bytes@, offset as int, 4) && error == ElfError::Truncated(4),
        },
{
    let len = bytes.len();
    if len < 4 || offset > (len - 4) as u64 {
        return Err(ElfError::Truncated(4));
    }
    let at: usize = offset as usize;
    Ok(
        bytes[at] as u32 + 0x100 * bytes[at + 1] as u32 + 0x1_0000 * bytes[at + 2] as u32
            + 0x100_0000 * bytes[at + 3] as u32,
    )
}

/// The 64-bit little-endian number at `offset`.
pub fn u64_at(bytes: &[u8], offset: u64) -> (number: Result<u64, ElfError>)
    ensures
        match number {
            Ok(value) => readable(bytes@, offset as int, 8) && value == u64_value(
                bytes@,
                offset as int,
            ),
            Err(error) => !readable(bytes@, offset as int, 8) && error == ElfError::Truncated(8),
        },
{
    let len = bytes.len();
    if len < 8 || offset > (len - 8) as u64 {
        return Err(ElfError::Truncated(8));
    }
    match (u32_at(bytes, offset), u32_at(bytes, offset + 4)) {
        (Ok(low), Ok(high)) => Ok(low as u64 + 0x1_0000_0000 * high as u64),
        _ => Err(ElfError::Truncated(8)),
    }
}

/// `value`, or the largest offset where `value` is larger still.
pub open spec fn clamped(value: int) -> int {
    if value > u64::MAX {
        u64::MAX as int
    } else {
        value
    }
}

/// Where the program header `index` begins, or the largest offset where it
/// begins beyond that.
fn header_offset(headers: &Headers, index: u16) -> (offset: u64)
    ensures
        offset == clamped(headers.at(index as int)),
{
    assert(index as int * headers.entry_size as int <= 0xffff * 0xffff) by (nonlinear_arith)
        requires
            0 <= index <= 0xffff,
            0 <= headers.entry_size <= 0xffff,
    ;
    headers.offset.saturating_add(index as u64 * headers.entry_size as u64)
}

/// What the program headers say: whether an interpreter is named, and where the
/// dynamic section lies.
fn read_headers(bytes: &[u8], headers: &Headers) -> (found: Result<
    (bool, Option<(u64, u64)>),
    ElfError,
>)
    ensures
        match found {
            Ok((interp, dynamic)) => {
                &&& first_cut_header(bytes@, *headers, 0) is None
                &&& interp == has_segment(bytes@, *headers, PT_INTERP, headers.count as int)
                &&& match last_segment(bytes@, *headers, PT_DYNAMIC, headers.count as int) {
                    Some(index) => dynamic == Some(
                        (
                            segment_offset(bytes@, headers.at(index)),
                            segment_size(bytes@, headers.at(index)),
                        ),
                    ),
                    None => dynamic is None,
                }
            },
            Err(error) => match first_cut_header(bytes@, *headers, 0) {
                Some(index) => error == ElfError::Truncated(
                    if readable(bytes@, headers.at(index), 4) {
                        8
                    } else {
                        4
                    },
                ),
                None => false,
            },
        },
{
    let mut interp = false;
    let mut dynamic: Option<(u64, u64)> = None;
    let mut i: u16 = 0;
    let len = bytes.len();
    while i < headers.count
        invariant
            i <= headers.count,
            len == bytes@.len(),
            first_cut_header(bytes@, *headers, 0) == first_cut_header(bytes@, *headers, i as int),
            interp == has_segment(bytes@, *headers, PT_INTERP, i as int),
            match last_segment(bytes@, *headers, PT_DYNAMIC, i as int) {
                Some(index) => dynamic == Some(
                    (
                        segment_offset(bytes@, headers.at(index)),
                        segment_size(bytes@, headers.at(index)),
                    ),
                ),
                None => dynamic is None,
            },
        decreases headers.count - i,
    {
        let at = header_offset(headers, i);
        let kind = u32_at(bytes, at)?;
        let offset = u64_at(bytes, at.saturating_add(8))?;
        let size = u64_at(bytes, at.saturating_add(32))?;
        let ghost seen = has_segment(bytes@, *headers, PT_INTERP, i as int);
        if kind == PT_INTERP {
            interp = true;
        } else if kind == PT_DYNAMIC {
            dynamic = Some((offset, size));
        }
        proof {
            assert(headers.at(i as int) == at);
            if seen {
                let j = choose|j: int|
                    #![trigger headers.at(j)]
                    0 <= j < i && segment_type(bytes@, headers.at(j)) == PT_INTERP;
                assert(segment_type(bytes@, headers.at(j)) == PT_INTERP);
            }
        }
        i += 1;
    }
    Ok((interp, dynamic))
}

/// What a dynamic section says: the string table's address, whether the PIE bit
/// is set, and the offsets of the names of the libraries it needs.
struct Dynamic {
    strtab: Option<u64>,
    pie: bool,
    needed: Vec<u64>,
}

/// Reads the dynamic section of `size` bytes at `start`.
fn read_dynamic(bytes: &[u8], start: u64, size: u64) -> (dynamic: Dynamic)
    ensures
        dynamic.strtab == last_value(
            dynamic_entries(bytes@, start as int, start + size),
            DT_STRTAB,
        ),
        dynamic.pie == carries_pie(dynamic_entries(bytes@, start as int, start + size)),
        dynamic.needed@ == values_of(
            dynamic_entries(bytes@, start as int, start + size),
            DT_NEEDED,
        ),
{
    let mut strtab: Option<u64> = None;
    let mut pie = false;
    let mut needed: Vec<u64> = Vec::new();
    let mut cursor: u64 = start;
    let mut left: u64 = size;
    let len = bytes.len();
    let ghost all = dynamic_entries(bytes@, start as int, start + size);
    let ghost mut done: Seq<(u64, u64)> = Seq::empty();
    assert(done + dynamic_entries(bytes@, cursor as int, start + size) =~= all);
    while left >= 16 && len >= 16 && cursor <= (len - 16) as u64
        invariant
            len == bytes@.len(),
            cursor + left == start + size,
            all == dynamic_entries(bytes@, start as int, start + size),
            all == done + dynamic_entries(bytes@, cursor as int, start + size),
            strtab == last_value(done, DT_STRTAB),
            pie == carries_pie(done),
            needed@ == values_of(done, DT_NEEDED),
        ensures
            all == done,
        decreases left,
    {
        let (tag, value) = match (u64_at(bytes, cursor), u64_at(bytes, cursor + 8)) {
            (Ok(tag), Ok(value)) => (tag, value),
            _ => {
                assert(false);
                break ;
            },
        };
        if tag == DT_NULL {
            assert(all =~= done);
            break ;
        }
        let ghost entry = (tag, value);
        if tag == DT_FLAGS_1 {
            pie = value & DF_1_PIE != 0;
        } else if tag == DT_NEEDED {
            needed.push(value);
        } else if tag == DT_STRTAB {
            strtab = Some(value);
        }
        proof {
            assert(done.push(entry).drop_last() =~= done);
            assert(done.push(entry) + dynamic_entries(bytes@, cursor + 16, start + size) =~= done
                + dynamic_entries(bytes@, cursor as int, start + size));
            reveal(Seq::filter_map);
            done = done.push(entry);
        }
        cursor += 16;
        left -= 16;
    }
    Dynamic { strtab, pie, needed }
}

/// The dynamic string table is addressed by virtual address, so it has to be
/// mapped back through the `PT_LOAD` segments to a file offset.
pub fn vaddr_to_offset(bytes: &[u8], vaddr: u64, headers: &Headers) -> (offset: Result<
    u64,
    ElfError,
>)
    ensures
        match offset {
            Ok(offset) => file_offset(bytes@, vaddr, *headers, 0) matches Ok(exact) && offset
                == clamped(exact),
            Err(error) => file_offset(bytes@, vaddr, *headers, 0) == Err::<int, ElfError>(error),
        },
{
    let mut i: u16 = 0;
    let len = bytes.len();
    while i < headers.count
        invariant
            i <= headers.count,
            len == bytes@.len(),
            file_offset(bytes@, vaddr, *headers, 0) == file_offset(
                bytes@,
                vaddr,
                *headers,
                i as int,
            ),
        decreases headers.count - i,
    {
        let at = header_offset(headers, i);
        if u32_at(bytes, at)? == PT_LOAD {
            let offset = u64_at(bytes, at.saturating_add(8))?;
            let start = u64_at(bytes, at.saturating_add(16))?;
            let size = u64_at(bytes, at.saturating_add(32))?;
            if vaddr >= start && vaddr - start < size {
                return Ok((vaddr - start).saturating_add(offset));
            }
        }
        i += 1;
    }
    Err(ElfError::Unmapped(vaddr))
}

/// The text, ended by a zero byte, that begins at `start`.
pub fn read_cstr(bytes: &[u8], start: u64) -> (text: Option<String>)
    ensures
        match text {
            Some(text) => text_at(bytes@, start as int) == Some(text@),
            None => text_at(bytes@, start as int) is None,
        },
{
    let len = bytes.len();
    if start >= len as u64 {
        return None;
    }
    let begin: usize = start as usize;
    let mut end: usize = begin;
    while end < len && bytes[end] != 0
        invariant
            len == bytes@.len(),
            begin <= end <= len,
            first_zero(bytes@, begin as int) == first_zero(bytes@, end as int),
        decreases len - end,
    {
        end += 1;
    }
    if end == len {
        return None;
    }
    match std::str::from_utf8(slice_subrange(bytes, begin, end)) {
        Ok(text) => {
            proof {
                vstd::utf8::encode_utf8_decode_utf8(text@);
            }
            Some(text.to_owned())
        },
        Err(_) => None,
    }
}

/// A string table beyond the largest offset holds no texts, wherever it is said
/// to lie.
proof fn lemma_clamped_table(bytes: Seq<u8>, table: int, offsets: Seq<u64>)
    requires
        bytes.len() <= u64::MAX,
    ensures
        table_texts(bytes, clamped(table), offsets) == table_texts(bytes, table, offsets),
{
    let near = |offset: u64| text_at(bytes, clamped(table) + offset);
    let far = |offset: u64| text_at(bytes, table + offset);
    assert forall|offset: u64| #[trigger] near(offset) == far(offset) by {}
    assert(near =~= far);
}

/// The texts of the string table at `table` that begin at the given offsets.
fn read_table(bytes: &[u8], table: u64, offsets: &Vec<u64>) -> (out: Vec<String>)
    ensures
        crate::text::texts(out@) == table_texts(bytes@, table as int, offsets@),
{
    let mut out: Vec<String> = Vec::new();
    let mut i: usize = 0;
    let len = bytes.len();
    let ghost pick = |offset: u64| text_at(bytes@, table + offset);
    assert(crate::text::texts(out@) =~= offsets@.take(0).filter_map(pick));
    while i < offsets.len()
        invariant
            i <= offsets@.len(),
            len == bytes@.len(),
            pick == (|offset: u64| text_at(bytes@, table + offset)),
            crate::text::texts(out@) == offsets@.take(i as int).filter_map(pick),
        decreases offsets@.len() - i,
    {
        let ghost before = out@;
        let found = read_cstr(bytes, table.saturating_add(offsets[i]));
        proof {
            offsets@.lemma_filter_map_take_succ(pick, i as int);
        }
        match found {
            Some(text) => {
                out.push(text);
                assert(crate::text::texts(out@) =~= crate::text::texts(before) + seq![text@]);
            },
            None => {},
        }
        i += 1;
        assert(crate::text::texts(out@) =~= offsets@.take(i as int).filter_map(pick));
    }
    assert(offsets@.take(i as int) =~= offsets@);
    out
}

/// Reads an image.
pub fn parse(bytes: &[u8]) -> (info: Result<ElfInfo, ElfError>)
    ensures
        match info {
            Ok(info) => facts_of(bytes@) == Ok::<ElfFacts, ElfError>(info@),
            Err(error) => facts_of(bytes@) == Err::<ElfFacts, ElfError>(error),
        },
{
    if bytes.len() < 64 || bytes[0] != 0x7f || bytes[1] != 0x45 || bytes[2] != 0x4c || bytes[3]
        != 0x46 {
        return Err(ElfError::NotElf);
    }
    if bytes[4] != 2 {
        return Err(ElfError::NotElf64);
    }
    if bytes[5] != 1 {
        return Err(ElfError::NotLittleEndian);
    }
    let e_type = u16_at(bytes, 16)?;
    let headers = Headers {
        offset: u64_at(bytes, 32)?,
        entry_size: u16_at(bytes, 54)?,
        count: u16_at(bytes, 56)?,
    };
    let (has_interp, place) = read_headers(bytes, &headers)?;
    let dynamic = match place {
        Some((start, size)) => read_dynamic(bytes, start, size),
        None => Dynamic { strtab: None, pie: false, needed: Vec::new() },
    };
    let ghost entries = dynamic_of(bytes@, headers);
    assert(dynamic.needed@ =~= values_of(entries, DT_NEEDED));
    let needed: Vec<String> = match dynamic.strtab {
        Some(vaddr) => if dynamic.needed.len() > 0 {
            let table = vaddr_to_offset(bytes, vaddr, &headers)?;
            proof {
                lemma_clamped_table(
                    bytes@,
                    file_offset(bytes@, vaddr, headers, 0)->Ok_0,
                    dynamic.needed@,
                );
            }
            read_table(bytes, table, &dynamic.needed)
        } else {
            Vec::new()
        },
        None => Vec::new(),
    };
    assert(needed@.len() == 0 ==> crate::text::texts(needed@) =~= Seq::empty());
    let info = ElfInfo { is_dyn: e_type == ET_DYN, has_pie_flag: dynamic.pie, has_interp, needed };
    assert(facts_of(bytes@) matches Ok(facts) && facts =~= info@);
    Ok(info)
}

// -- the verdict -------------------------------------------------------------

impl ElfFacts {
    /// A position independent executable: of type `DYN`, flagged as PIE, and with
    /// an interpreter.
    pub open spec fn is_pie(self) -> bool {
        self.is_dyn && self.has_pie_flag && self.has_interp
    }

    /// What keeps an image from being a position independent executable.
    pub open spec fn reasons(self) -> Seq<Seq<char>> {
        let fixed = if self.is_dyn {
            Seq::empty()
        } else {
            seq!["ELF type is not DYN (built as a fixed-address executable)"@]
        };
        let unflagged = if self.has_pie_flag {
            Seq::empty()
        } else {
            seq!["DT_FLAGS_1 does not carry PIE"@]
        };
        let library = if self.has_interp {
            Seq::empty()
        } else {
            seq!["no PT_INTERP segment (this is a shared library, not an executable)"@]
        };
        fixed + unflagged + library
    }
}

impl ElfInfo {
    /// A shared library is also `ET_DYN` and also carries no `PT_INTERP`; the
    /// combination of all three is what distinguishes a real PIE executable.
    pub fn is_pie_executable(&self) -> (pie: bool)
        ensures
            pie == self@.is_pie(),
    {
        self.is_dyn && self.has_pie_flag && self.has_interp
    }

    /// Every reason for which the image is no position independent executable.
    pub fn explain_failure(&self) -> (text: String)
        ensures
            text@ == crate::text::join(self@.reasons(), "; "@),
    {
        let mut reasons: Vec<String> = Vec::new();
        if !self.is_dyn {
            reasons.push("ELF type is not DYN (built as a fixed-address executable)".to_owned());
        }
        if !self.has_pie_flag {
            reasons.push("DT_FLAGS_1 does not carry PIE".to_owned());
        }
        if !self.has_interp {
            reasons.push(
                "no PT_INTERP segment (this is a shared library, not an executable)".to_owned(),
            );
        }
        assert(crate::text::texts(reasons@) =~= self@.reasons());
        join_texts(&reasons, "; ")
    }
}

impl ElfError {
    /// The error in words.
    pub open spec fn words(self) -> Seq<char> {
        match self {
            ElfError::NotElf => "not an ELF file"@,
            ElfError::NotElf64 => "not a 64-bit ELF file (only ELF64 is supported)"@,
            ElfError::NotLittleEndian =>
                "not a little-endian ELF file (only ELFDATA2LSB is supported)"@,
            ElfError::Truncated(count) => "truncated ELF: expected "@ + crate::number::decimal(
                count as nat,
            ) + " bytes"@,
            ElfError::Unmapped(vaddr) => "could not map vaddr 0x"@ + crate::number::numeral(
                vaddr as nat,
                16,
            ) + " to a file offset"@,
        }
    }

    /// The error in words.
    pub fn message(&self) -> (text: String)
        ensures
            text@ == self.words(),
    {
        match self {
            ElfError::NotElf => "not an ELF file".to_owned(),
            ElfError::NotElf64 => "not a 64-bit ELF file (only ELF64 is supported)".to_owned(),
            ElfError::NotLittleEndian =>
                "not a little-endian ELF file (only ELFDATA2LSB is supported)".to_owned(),
            ElfError::Truncated(count) => {
                let mut text = "truncated ELF: expected ".to_owned();
                text.append(write_decimal(*count).as_str());
                text.append(" bytes");
                text
            },
            ElfError::Unmapped(vaddr) => {
                let mut text = "could not map vaddr 0x".to_owned();
                text.append(write_number(*vaddr, 16).as_str());
                text.append(" to a file offset");
                text
            },
        }
    }
}

/// Why a file could not be inspected.
#[derive(Debug)]
pub enum InspectError {
    /// The file could not be read.
    Reading { path: String, cause: String },
    /// The file is no image that can be read.
    Parsing { path: String, error: ElfError },
}

impl InspectError {
    /// The error in words, what caused it after a colon.
    pub open spec fn words(self) -> Seq<char> {
        match self {
            InspectError::Reading { path, cause } => "reading "@ + path@ + ": "@ + cause@,
            InspectError::Parsing { path, error } => "parsing "@ + path@ + ": "@ + error.words(),
        }
    }

    /// The error in words, what caused it after a colon.
    pub fn message(&self) -> (text: String)
        ensures
            text@ == self.words(),
    {
        match self {
            InspectError::Reading { path, cause } => {
                let mut text = "reading ".to_owned();
                text.append(path.as_str());
                text.append(": ");
                text.append(cause.as_str());
                text
            },
            InspectError::Parsing { path, error } => {
                let mut text = "parsing ".to_owned();
                text.append(path.as_str());
                text.append(": ");
                text.append(error.message().as_str());
                text
            },
        }
    }
}

/// Reads the image at `path`, of which `contents` is what the file holds, or why it
/// could not be read.
pub fn inspect(path: &str, contents: Result<Vec<u8>, String>) -> (info: Result<
    ElfInfo,
    InspectError,
>)
    ensures
        match contents {
            Err(cause) => info matches Err(InspectError::Reading { path: stated, cause: why })
                && stated@ == path@ && why@ == cause@,
            Ok(bytes) => match facts_of(bytes@) {
                Ok(facts) => info matches Ok(info) && info@ == facts,
                Err(error) => info matches Err(
                    InspectError::Parsing { path: stated, error: why },
                ) && stated@ == path@ && why == error,
            },
        },
{
    match contents {
        Err(cause) => Err(InspectError::Reading { path: path.to_owned(), cause }),
        Ok(bytes) => match parse(&bytes) {
            Ok(info) => Ok(info),
            Err(error) => Err(InspectError::Parsing { path: path.to_owned(), error }),
        },
    }
}

// -- laws --------------------------------------------------------------------

/// A shared library, which has no interpreter, never passes for an executable,
/// although it is of type `DYN`.
pub proof fn law_shared_library_is_not_pie(bytes: Seq<u8>, facts: ElfFacts)
    requires
        facts_of(bytes) == Ok::<ElfFacts, ElfError>(facts),
        !has_segment(bytes, headers_of(bytes), PT_INTERP, headers_of(bytes).count as int),
    ensures
        !facts.is_pie(),
{
}

/// An image of another type than `DYN` never passes, whatever its flags say.
pub proof fn law_fixed_address_is_not_pie(bytes: Seq<u8>, facts: ElfFacts)
    requires
        facts_of(bytes) == Ok::<ElfFacts, ElfError>(facts),
        u16_value(bytes, 16) != ET_DYN,
    ensures
        !facts.is_pie(),
{
}

/// An image whose last `DT_FLAGS_1` lacks the PIE bit, or that has none, never
/// passes.
pub proof fn law_unflagged_is_not_pie(bytes: Seq<u8>, facts: ElfFacts)
    requires
        facts_of(bytes) == Ok::<ElfFacts, ElfError>(facts),
        match last_value(dynamic_of(bytes, headers_of(bytes)), DT_FLAGS_1) {
            Some(flags) => flags & DF_1_PIE == 0,
            None => true,
        },
    ensures
        !facts.is_pie(),
{
}

/// There is something to explain exactly where the image is no position
/// independent executable, and the explanation gives one reason for each of the
/// three conditions that fails.
pub proof fn law_every_failure_is_explained(facts: ElfFacts)
    ensures
        (crate::text::join(facts.reasons(), "; "@).len() == 0) == facts.is_pie(),
        facts.reasons().len() == (if facts.is_dyn {
            0int
        } else {
            1
        }) + (if facts.has_pie_flag {
            0int
        } else {
            1
        }) + (if facts.has_interp {
            0int
        } else {
            1
        }),
{
    reveal_strlit("ELF type is not DYN (built as a fixed-address executable)");
    reveal_strlit("DT_FLAGS_1 does not carry PIE");
    reveal_strlit("no PT_INTERP segment (this is a shared library, not an executable)");
    let reasons = facts.reasons();
    assert(reasons.len() == 0 <==> facts.is_pie());
    if reasons.len() > 0 {
        assert(reasons.last().len() > 0);
    }
}

/// Numbers are little-endian: every byte counts 256 times as much as the one before.
pub proof fn law_numbers_are_little_endian(bytes: Seq<u8>, at: int)
    ensures
        u16_value(bytes, at) == bytes[at] + 0x100 * bytes[at + 1],
        u32_value(bytes, at) == bytes[at] + 0x100 * bytes[at + 1] + 0x1_0000 * bytes[at + 2]
            + 0x100_0000 * bytes[at + 3],
        u64_value(bytes, at) == bytes[at] + 0x100 * bytes[at + 1] + 0x1_0000 * bytes[at + 2]
            + 0x100_0000 * bytes[at + 3] + 0x1_0000_0000 * (bytes[at + 4] + 0x100 * bytes[at + 5]
            + 0x1_0000 * bytes[at + 6] + 0x100_0000 * bytes[at + 7]),
{
}

/// The program headers stand where the file header says: from the offset at byte 32
/// on, as far apart as the number at byte 54 says, as many as that at byte 56 says.
pub proof fn law_program_headers_are_located(bytes: Seq<u8>, index: int)
    ensures
        headers_of(bytes).at(index) == u64_value(bytes, 32) + index * u16_value(bytes, 54),
        headers_of(bytes).count == u16_value(bytes, 56),
{
}

/// The value that counts of a tag is that of its last entry.
proof fn lemma_last_value(entries: Seq<(u64, u64)>, tag: u64)
    ensures
        match last_value(entries, tag) {
            Some(value) => exists|k: int|
                0 <= k < entries.len() && #[trigger] entries[k] == (tag, value) && forall|j: int|
                    k < j < entries.len() ==> (#[trigger] entries[j]).0 != tag,
            None => forall|j: int| 0 <= j < entries.len() ==> (#[trigger] entries[j]).0 != tag,
        },
    decreases entries.len(),
{
    if entries.len() > 0 {
        let front = entries.drop_last();
        if entries.last().0 == tag {
            assert(entries[entries.len() - 1] == (tag, entries.last().1));
        } else {
            lemma_last_value(front, tag);
            if let Some(value) = last_value(front, tag) {
                let k = choose|k: int|
                    0 <= k < front.len() && #[trigger] front[k] == (tag, value) && forall|j: int|
                        k < j < front.len() ==> (#[trigger] front[j]).0 != tag;
                assert(entries[k] == (tag, value));
                assert forall|j: int| k < j < entries.len() implies (#[trigger] entries[j]).0
                    != tag by {
                    if j < front.len() {
                        assert(front[j].0 != tag);
                    }
                }
            } else {
                assert forall|j: int| 0 <= j < entries.len() implies (#[trigger] entries[j]).0
                    != tag by {
                    if j < front.len() {
                        assert(front[j].0 != tag);
                    }
                }
            }
        }
    }
}

/// An image of type DYN with an interpreter segment, whose last `DT_FLAGS_1` has the
/// PIE bit set, is a position independent executable, whatever its other flags are;
/// and no other image is.
pub proof fn law_flagged_executables_are_pie(bytes: Seq<u8>, facts: ElfFacts)
    requires
        facts_of(bytes) == Ok::<ElfFacts, ElfError>(facts),
    ensures
        facts.is_dyn <==> bytes[16] == 3 && bytes[17] == 0,
        facts.has_interp <==> exists|i: int|
            0 <= i < u16_value(bytes, 56) && u32_value(
                bytes,
                #[trigger] headers_of(bytes).at(i),
            ) == 3,
        facts.has_pie_flag <==> exists|k: int|
            0 <= k < dynamic_of(bytes, headers_of(bytes)).len() && (#[trigger] dynamic_of(
                bytes,
                headers_of(bytes),
            )[k]).0 == 0x6fff_fffb && dynamic_of(bytes, headers_of(bytes))[k].1 & 0x0800_0000u64
                != 0 && forall|j: int|
                k < j < dynamic_of(bytes, headers_of(bytes)).len() ==> (#[trigger] dynamic_of(
                    bytes,
                    headers_of(bytes),
                )[j]).0 != 0x6fff_fffb,
        facts.is_pie() <==> facts.is_dyn && facts.has_interp && facts.has_pie_flag,
{
    let entries = dynamic_of(bytes, headers_of(bytes));
    lemma_last_value(entries, DT_FLAGS_1);
    if let Some(flags) = last_value(entries, DT_FLAGS_1) {
        let k = choose|k: int|
            0 <= k < entries.len() && #[trigger] entries[k] == (DT_FLAGS_1, flags) && forall|j: int|
                k < j < entries.len() ==> (#[trigger] entries[j]).0 != DT_FLAGS_1;
        assert(entries[k].0 == 0x6fff_fffb && entries[k].1 == flags);
    }
}

/// The entries of the dynamic section are the pairs of numbers that follow each other
/// from the start of the last `PT_DYNAMIC` segment on, up to a null tag or the end of
/// the segment or of the image.
pub proof fn law_dynamic_entries_follow_each_other(bytes: Seq<u8>, headers: Headers, index: int)
    requires
        0 <= index < headers.count,
        u32_value(bytes, headers.at(index)) == 2,
        forall|i: int|
            index < i < headers.count ==> u32_value(bytes, #[trigger] headers.at(i)) != 2,
    ensures
        ({
            let entries = dynamic_of(bytes, headers);
            let start = u64_value(bytes, headers.at(index) + 8);
            let end = start + u64_value(bytes, headers.at(index) + 32);
            &&& forall|k: int|
                0 <= k < entries.len() ==> #[trigger] entries[k] == (
                    u64_value(bytes, start + 16 * k),
                    u64_value(bytes, start + 16 * k + 8),
                ) && entries[k].0 != 0 && start + 16 * k + 16 <= end && start + 16 * k + 16
                    <= bytes.len()
            &&& {
                let stop = start + 16 * entries.len();
                stop + 16 > end || stop + 16 > bytes.len() || u64_value(bytes, stop) == 0
            }
        }),
{
    lemma_last_segment(bytes, headers, index, headers.count as int);
    let start = u64_value(bytes, headers.at(index) + 8) as int;
    lemma_dynamic_entries(bytes, start, start + u64_value(bytes, headers.at(index) + 32));
}

/// An image without a `PT_DYNAMIC` segment has no dynamic entries.
pub proof fn law_static_images_have_no_dynamic_entries(bytes: Seq<u8>, headers: Headers)
    requires
        forall|i: int| 0 <= i < headers.count ==> u32_value(bytes, #[trigger] headers.at(i)) != 2,
    ensures
        dynamic_of(bytes, headers).len() == 0,
{
    lemma_no_segment(bytes, headers, headers.count as int);
}

proof fn lemma_last_segment(bytes: Seq<u8>, headers: Headers, index: int, count: int)
    requires
        0 <= index < count,
        u32_value(bytes, headers.at(index)) == 2,
        forall|i: int| index < i < count ==> u32_value(bytes, #[trigger] headers.at(i)) != 2,
    ensures
        last_segment(bytes, headers, PT_DYNAMIC, count) == Some(index),
    decreases count,
{
    if index < count - 1 {
        assert(u32_value(bytes, headers.at(count - 1)) != 2);
        lemma_last_segment(bytes, headers, index, count - 1);
    }
}

proof fn lemma_no_segment(bytes: Seq<u8>, headers: Headers, count: int)
    requires
        forall|i: int| 0 <= i < count ==> u32_value(bytes, #[trigger] headers.at(i)) != 2,
    ensures
        last_segment(bytes, headers, PT_DYNAMIC, count) is None,
    decreases count,
{
    if count > 0 {
        assert(u32_value(bytes, headers.at(count - 1)) != 2);
        lemma_no_segment(bytes, headers, count - 1);
    }
}

proof fn lemma_dynamic_entries(bytes: Seq<u8>, at: int, end: int)
    requires
        0 <= at,
    ensures
        ({
            let entries = dynamic_entries(bytes, at, end);
            &&& forall|k: int|
                0 <= k < entries.len() ==> #[trigger] entries[k] == (
                    u64_value(bytes, at + 16 * k),
                    u64_value(bytes, at + 16 * k + 8),
                ) && entries[k].0 != 0 && at + 16 * k + 16 <= end && at + 16 * k + 16 <= bytes.len()
            &&& {
                let stop = at + 16 * entries.len();
                stop + 16 > end || stop + 16 > bytes.len() || u64_value(bytes, stop) == 0
            }
        }),
    decreases end - at,
{
    let entries = dynamic_entries(bytes, at, end);
    if !(at + 16 > end || at + 16 > bytes.len() || u64_value(bytes, at) == DT_NULL) {
        lemma_dynamic_entries(bytes, at + 16, end);
        let rest = dynamic_entries(bytes, at + 16, end);
        assert forall|k: int| 0 <= k < entries.len() implies #[trigger] entries[k] == (
            u64_value(bytes, at + 16 * k),
            u64_value(bytes, at + 16 * k + 8),
        ) && entries[k].0 != 0 && at + 16 * k + 16 <= end && at + 16 * k + 16 <= bytes.len() by {
            if k > 0 {
                assert(entries[k] == rest[k - 1]);
                assert(at + 16 + 16 * (k - 1) == at + 16 * k);
            }
        }
        assert(entries.len() == rest.len() + 1);
    }
}

/// The values of a tag are those of its entries, all of them, in their order.
pub proof fn law_values_are_those_of_the_tag(entries: Seq<(u64, u64)>, entry: (u64, u64), tag: u64)
    ensures
        values_of(Seq::empty(), tag).len() == 0,
        values_of(entries.push(entry), tag) == (if entry.0 == tag {
            values_of(entries, tag).push(entry.1)
        } else {
            values_of(entries, tag)
        }),
{
    let pick = |entry: (u64, u64)|
        if entry.0 == tag {
            Some(entry.1)
        } else {
            None
        };
    let all = entries.push(entry);
    reveal(Seq::filter_map);
    all.lemma_filter_map_take_succ(pick, entries.len() as int);
    assert(all.take(entries.len() as int) =~= entries);
    assert(all.take((entries.len() + 1) as int) =~= all);
    assert(Seq::<(u64, u64)>::empty().filter_map(pick).len() == 0);
}

/// A text of an image runs up to the first zero byte, and has to be UTF-8.
pub proof fn law_texts_end_at_the_first_zero(bytes: Seq<u8>, at: int, end: int)
    requires
        0 <= at <= end < bytes.len(),
        bytes[end] == 0,
        forall|i: int| at <= i < end ==> bytes[i] != 0,
    ensures
        text_at(bytes, at) == (if vstd::utf8::valid_utf8(bytes.subrange(at, end)) {
            Some(vstd::utf8::decode_utf8(bytes.subrange(at, end)))
        } else {
            None
        }),
{
    lemma_first_zero(bytes, at, end);
}

proof fn lemma_first_zero(bytes: Seq<u8>, at: int, end: int)
    requires
        0 <= at <= end < bytes.len(),
        bytes[end] == 0,
        forall|i: int| at <= i < end ==> bytes[i] != 0,
    ensures
        first_zero(bytes, at) == Some(end),
    decreases end - at,
{
    if at < end {
        lemma_first_zero(bytes, at + 1, end);
    }
}

/// A text that no zero byte ends is none.
pub proof fn law_unended_texts_are_none(bytes: Seq<u8>, at: int)
    requires
        forall|i: int| at <= i < bytes.len() ==> bytes[i] != 0,
    ensures
        text_at(bytes, at) is None,
{
    lemma_no_zero(bytes, at);
}

proof fn lemma_no_zero(bytes: Seq<u8>, at: int)
    requires
        forall|i: int| at <= i < bytes.len() ==> bytes[i] != 0,
    ensures
        first_zero(bytes, at) is None,
    decreases bytes.len() - at,
{
    if 0 <= at < bytes.len() {
        lemma_no_zero(bytes, at + 1);
    }
}

/// The texts of a table are those at the given offsets in it, in their order.
pub proof fn law_table_texts_are_read_in_order(
    bytes: Seq<u8>,
    table: int,
    offsets: Seq<u64>,
    offset: u64,
)
    ensures
        table_texts(bytes, table, Seq::empty()).len() == 0,
        table_texts(bytes, table, offsets.push(offset)) == (match text_at(bytes, table + offset) {
            Some(text) => table_texts(bytes, table, offsets).push(text),
            None => table_texts(bytes, table, offsets),
        }),
{
    let pick = |offset: u64| text_at(bytes, table + offset);
    let all = offsets.push(offset);
    reveal(Seq::filter_map);
    all.lemma_filter_map_take_succ(pick, offsets.len() as int);
    assert(all.take(offsets.len() as int) =~= offsets);
    assert(all.take((offsets.len() + 1) as int) =~= all);
    assert(Seq::<u64>::empty().filter_map(pick).len() == 0);
}

/// The libraries that an image needs are the texts of all its `DT_NEEDED` entries in
/// the table that its last `DT_STRTAB` points to.
pub proof fn law_needed_libraries_are_named(bytes: Seq<u8>, facts: ElfFacts)
    requires
        facts_of(bytes) == Ok::<ElfFacts, ElfError>(facts),
    ensures
        ({
            let headers = headers_of(bytes);
            let entries = dynamic_of(bytes, headers);
            &&& (forall|k: int| 0 <= k < entries.len() ==> (#[trigger] entries[k]).0 != 1)
                ==> facts.needed.len() == 0
            &&& (forall|k: int| 0 <= k < entries.len() ==> (#[trigger] entries[k]).0 != 5)
                ==> facts.needed.len() == 0
            &&& forall|k: int|
                0 <= k < entries.len() && (#[trigger] entries[k]).0 == 5 && (forall|j: int|
                    k < j < entries.len() ==> (#[trigger] entries[j]).0 != 5) && (exists|i: int|
                    0 <= i < entries.len() && (#[trigger] entries[i]).0 == 1) ==> file_offset(
                    bytes,
                    entries[k].1,
                    headers,
                    0,
                ) is Ok && facts.needed == table_texts(
                    bytes,
                    file_offset(bytes, entries[k].1, headers, 0)->Ok_0,
                    values_of(entries, 1),
                )
        }),
{
    let headers = headers_of(bytes);
    let entries = dynamic_of(bytes, headers);
    lemma_last_value(entries, DT_STRTAB);
    lemma_values_of(entries, DT_NEEDED);
    assert forall|k: int|
        0 <= k < entries.len() && (#[trigger] entries[k]).0 == 5 && (forall|j: int|
            k < j < entries.len() ==> (#[trigger] entries[j]).0 != 5) && (exists|i: int|
            0 <= i < entries.len() && (#[trigger] entries[i]).0 == 1) implies file_offset(
        bytes,
        entries[k].1,
        headers,
        0,
    ) is Ok && facts.needed == table_texts(
        bytes,
        file_offset(bytes, entries[k].1, headers, 0)->Ok_0,
        values_of(entries, 1),
    ) by {
        let vaddr = last_value(entries, DT_STRTAB)->Some_0;
        let l = choose|l: int|
            0 <= l < entries.len() && #[trigger] entries[l] == (DT_STRTAB, vaddr) && forall|j: int|
                l < j < entries.len() ==> (#[trigger] entries[j]).0 != DT_STRTAB;
        assert(l == k);
    }
}

proof fn lemma_values_of(entries: Seq<(u64, u64)>, tag: u64)
    ensures
        values_of(entries, tag).len() == 0 <==> forall|j: int|
            0 <= j < entries.len() ==> (#[trigger] entries[j]).0 != tag,
    decreases entries.len(),
{
    if entries.len() == 0 {
        law_values_are_those_of_the_tag(entries, (0, 0), tag);
        assert(entries =~= Seq::empty());
    } else {
        let front = entries.drop_last();
        lemma_values_of(front, tag);
        law_values_are_those_of_the_tag(front, entries.last(), tag);
        assert(entries =~= front.push(entries.last()));
        if values_of(entries, tag).len() == 0 {
            assert forall|j: int| 0 <= j < entries.len() implies (#[trigger] entries[j]).0
                != tag by {
                if j < front.len() {
                    assert(front[j].0 != tag);
                }
            }
        } else if entries.last().0 != tag {
            let j = choose|j: int| 0 <= j < front.len() && (#[trigger] front[j]).0 == tag;
            assert(entries[j].0 == tag);
        }
    }
}

/// An address is found in the first loaded segment whose part of the image holds it,
/// as far behind the segment's offset as it is behind the segment's address.
pub proof fn law_addresses_are_mapped_by_their_segment(
    bytes: Seq<u8>,
    vaddr: u64,
    headers: Headers,
    index: int,
)
    requires
        0 <= index < headers.count,
        forall|i: int|
            0 <= i <= index ==> 0 <= #[trigger] headers.at(i) && headers.at(i) + 40 <= bytes.len(),
        u32_value(bytes, headers.at(index)) == 1,
        u64_value(bytes, headers.at(index) + 16) <= vaddr,
        vaddr < u64_value(bytes, headers.at(index) + 16) + u64_value(bytes, headers.at(index) + 32),
        forall|i: int|
            0 <= i < index && u32_value(bytes, #[trigger] headers.at(i)) == 1 ==> vaddr < u64_value(
                bytes,
                headers.at(i) + 16,
            ) || vaddr >= u64_value(bytes, headers.at(i) + 16) + u64_value(
                bytes,
                headers.at(i) + 32,
            ),
    ensures
        file_offset(bytes, vaddr, headers, 0) == Ok::<int, ElfError>(
            vaddr - u64_value(bytes, headers.at(index) + 16) + u64_value(
                bytes,
                headers.at(index) + 8,
            ),
        ),
{
    lemma_mapped(bytes, vaddr, headers, index, 0);
}

proof fn lemma_mapped(bytes: Seq<u8>, vaddr: u64, headers: Headers, index: int, from: int)
    requires
        0 <= from <= index < headers.count,
        forall|i: int|
            0 <= i <= index ==> 0 <= #[trigger] headers.at(i) && headers.at(i) + 40 <= bytes.len(),
        u32_value(bytes, headers.at(index)) == 1,
        u64_value(bytes, headers.at(index) + 16) <= vaddr,
        vaddr < u64_value(bytes, headers.at(index) + 16) + u64_value(bytes, headers.at(index) + 32),
        forall|i: int|
            0 <= i < index && u32_value(bytes, #[trigger] headers.at(i)) == 1 ==> vaddr < u64_value(
                bytes,
                headers.at(i) + 16,
            ) || vaddr >= u64_value(bytes, headers.at(i) + 16) + u64_value(
                bytes,
                headers.at(i) + 32,
            ),
    ensures
        file_offset(bytes, vaddr, headers, from) == Ok::<int, ElfError>(
            vaddr - u64_value(bytes, headers.at(index) + 16) + u64_value(
                bytes,
                headers.at(index) + 8,
            ),
        ),
    decreases index - from,
{
    assert(headers.at(from) + 40 <= bytes.len());
    if from < index {
        lemma_mapped(bytes, vaddr, headers, index, from + 1);
    }
}

/// An address that no loaded segment holds is refused.
pub proof fn law_unmapped_addresses_are_refused(
    bytes: Seq<u8>,
    vaddr: u64,
    headers: Headers,
    from: int,
)
    requires
        0 <= from <= headers.count,
        forall|i: int|
            from <= i < headers.count ==> 0 <= #[trigger] headers.at(i) && headers.at(i) + 40
                <= bytes.len(),
        forall|i: int|
            from <= i < headers.count && u32_value(bytes, #[trigger] headers.at(i)) == 1 ==> vaddr
                < u64_value(bytes, headers.at(i) + 16) || vaddr >= u64_value(
                bytes,
                headers.at(i) + 16,
            ) + u64_value(bytes, headers.at(i) + 32),
    ensures
        file_offset(bytes, vaddr, headers, from) == Err::<int, ElfError>(ElfError::Unmapped(vaddr)),
    decreases headers.count - from,
{
    if from < headers.count {
        assert(headers.at(from) + 40 <= bytes.len());
        law_unmapped_addresses_are_refused(bytes, vaddr, headers, from + 1);
    }
}

/// Every little-endian ELF64 image whose program headers are all there, and whose
/// table of names is in a loaded segment where there is one, can be read.
pub proof fn law_whole_images_are_read(bytes: Seq<u8>)
    requires
        bytes.len() >= 64,
        bytes[0] == 0x7f && bytes[1] == 0x45 && bytes[2] == 0x4c && bytes[3] == 0x46,
        bytes[4] == 2,
        bytes[5] == 1,
        forall|i: int|
            0 <= i < u16_value(bytes, 56) ==> #[trigger] headers_of(bytes).at(i) + 40
                <= bytes.len(),
        forall|k: int|
            0 <= k < dynamic_of(bytes, headers_of(bytes)).len() && (#[trigger] dynamic_of(
                bytes,
                headers_of(bytes),
            )[k]).0 == 5 ==> file_offset(
                bytes,
                dynamic_of(bytes, headers_of(bytes))[k].1,
                headers_of(bytes),
                0,
            ) is Ok,
    ensures
        facts_of(bytes) is Ok,
{
    let headers = headers_of(bytes);
    let entries = dynamic_of(bytes, headers);
    lemma_whole_headers(bytes, headers, 0);
    lemma_last_value(entries, DT_STRTAB);
    if let Some(vaddr) = last_value(entries, DT_STRTAB) {
        let k = choose|k: int|
            0 <= k < entries.len() && #[trigger] entries[k] == (DT_STRTAB, vaddr) && forall|j: int|
                k < j < entries.len() ==> (#[trigger] entries[j]).0 != DT_STRTAB;
        assert(file_offset(bytes, entries[k].1, headers, 0) is Ok);
    }
}

proof fn lemma_whole_headers(bytes: Seq<u8>, headers: Headers, from: int)
    requires
        0 <= from,
        forall|i: int|
            0 <= i < headers.count ==> #[trigger] headers.at(i) + 40 <= bytes.len(),
    ensures
        first_cut_header(bytes, headers, from) is None,
    decreases headers.count - from,
{
    if from < headers.count {
        assert(headers.at(from) + 40 <= bytes.len());
        assert(headers.at(from) >= 0) by (nonlinear_arith)
            requires
                headers.at(from) == headers.offset + from * headers.entry_size,
                from >= 0,
                headers.offset >= 0,
                headers.entry_size >= 0,
        ;
        lemma_whole_headers(bytes, headers, from + 1);
    }
}

/// What is no little-endian ELF64 image is refused, and so is one that ends within
/// its program headers.
pub proof fn law_other_images_are_refused(bytes: Seq<u8>)
    ensures
        bytes.len() < 64 || bytes[0] != 0x7f || bytes[1] != 0x45 || bytes[2] != 0x4c || bytes[3]
            != 0x46 ==> facts_of(bytes) == Err::<ElfFacts, ElfError>(ElfError::NotElf),
        facts_of(bytes) is Ok ==> bytes[4] == 2 && bytes[5] == 1,
        facts_of(bytes) is Ok ==> forall|i: int|
            0 <= i < u16_value(bytes, 56) ==> #[trigger] headers_of(bytes).at(i) + 40
                <= bytes.len(),
{
    let headers = headers_of(bytes);
    if facts_of(bytes) is Ok {
        assert forall|i: int| 0 <= i < u16_value(bytes, 56) implies #[trigger] headers.at(i) + 40
            <= bytes.len() by {
            lemma_uncut_header(bytes, headers, 0, i);
        }
    }
}

proof fn lemma_uncut_header(bytes: Seq<u8>, headers: Headers, from: int, index: int)
    requires
        0 <= from <= index < headers.count,
        first_cut_header(bytes, headers, from) is None,
    ensures
        headers.at(index) + 40 <= bytes.len(),
    decreases index - from,
{
    if from < index {
        lemma_uncut_header(bytes, headers, from + 1, index);
    }
}

/// Each way of failing is told apart: another class than ELF64, another byte order
/// than little-endian, and program headers beyond the end.
pub proof fn law_refusals_are_told_apart(bytes: Seq<u8>)
    requires
        bytes.len() >= 64,
        bytes[0] == 0x7f && bytes[1] == 0x45 && bytes[2] == 0x4c && bytes[3] == 0x46,
    ensures
        bytes[4] != 2 ==> facts_of(bytes) == Err::<ElfFacts, ElfError>(ElfError::NotElf64),
        bytes[4] == 2 && bytes[5] != 1 ==> facts_of(bytes) == Err::<ElfFacts, ElfError>(
            ElfError::NotLittleEndian,
        ),
        bytes[4] == 2 && bytes[5] == 1 && (exists|i: int|
            0 <= i < u16_value(bytes, 56) && #[trigger] headers_of(bytes).at(i) + 40 > bytes.len())
            ==> facts_of(bytes) matches Err(ElfError::Truncated(_)),
{
    if exists|i: int|
        0 <= i < u16_value(bytes, 56) && #[trigger] headers_of(bytes).at(i) + 40 > bytes.len() {
        let i = choose|i: int|
            0 <= i < u16_value(bytes, 56) && #[trigger] headers_of(bytes).at(i) + 40 > bytes.len();
        if first_cut_header(bytes, headers_of(bytes), 0) is None {
            lemma_uncut_header(bytes, headers_of(bytes), 0, i);
        }
    }
}

/// An image that needs libraries, but whose table of names no loaded segment holds,
/// is refused.
pub proof fn law_lost_tables_are_refused(bytes: Seq<u8>, k: int, i: int)
    requires
        0 <= k < dynamic_of(bytes, headers_of(bytes)).len(),
        dynamic_of(bytes, headers_of(bytes))[k].0 == 5,
        forall|j: int|
            k < j < dynamic_of(bytes, headers_of(bytes)).len() ==> (#[trigger] dynamic_of(
                bytes,
                headers_of(bytes),
            )[j]).0 != 5,
        0 <= i < dynamic_of(bytes, headers_of(bytes)).len(),
        dynamic_of(bytes, headers_of(bytes))[i].0 == 1,
        file_offset(bytes, dynamic_of(bytes, headers_of(bytes))[k].1, headers_of(bytes), 0) is Err,
    ensures
        facts_of(bytes) is Err,
{
    if facts_of(bytes) is Ok {
        law_needed_libraries_are_named(bytes, facts_of(bytes)->Ok_0);
    }
}

/// Why a file is no position independent executable is said in full.
pub proof fn law_reasons_are_given_in_full(facts: ElfFacts)
    ensures
        facts.reasons().contains("ELF type is not DYN (built as a fixed-address executable)"@)
            <== !facts.is_dyn,
        facts.reasons().contains("DT_FLAGS_1 does not carry PIE"@) <== !facts.has_pie_flag,
        facts.reasons().contains(
            "no PT_INTERP segment (this is a shared library, not an executable)"@,
        ) <== !facts.has_interp,
{
    let reasons = facts.reasons();
    if !facts.is_dyn {
        assert(reasons[0] == "ELF type is not DYN (built as a fixed-address executable)"@);
    }
    if !facts.has_pie_flag {
        let at: int = if facts.is_dyn {
            0
        } else {
            1
        };
        assert(reasons[at] == "DT_FLAGS_1 does not carry PIE"@);
    }
    if !facts.has_interp {
        assert(reasons[reasons.len() - 1]
            == "no PT_INTERP segment (this is a shared library, not an executable)"@);
    }
}

/// The model of what was read of an image says all of it.
pub proof fn law_model_says_what_was_read(info: ElfInfo)
    ensures
        info@.is_dyn == info.is_dyn,
        info@.has_pie_flag == info.has_pie_flag,
        info@.has_interp == info.has_interp,
        info@.needed == crate::text::texts(info.needed@),
{
}

/// A number is read where all its bytes are in the image, and an offset beyond what a
/// machine word holds lies past the end like the largest that it holds.
pub proof fn law_numbers_need_all_their_bytes(bytes: Seq<u8>, at: int, count: int)
    ensures
        readable(bytes, at, count) <==> 0 <= at && at + count <= bytes.len(),
        0 <= at <= u64::MAX ==> clamped(at) == at,
        at > u64::MAX ==> clamped(at) == u64::MAX,
{
}

/// Mapping an address fails at the first program header that the image does not hold
/// as far as it is needed.
pub proof fn law_cut_headers_end_the_mapping(
    bytes: Seq<u8>,
    vaddr: u64,
    headers: Headers,
    from: int,
    index: int,
)
    requires
        0 <= from <= index < headers.count,
        forall|i: int|
            from <= i < index ==> 0 <= #[trigger] headers.at(i) && headers.at(i) + 40 <= bytes.len()
                && (u32_value(bytes, headers.at(i)) != 1 || vaddr < u64_value(
                bytes,
                headers.at(i) + 16,
            ) || vaddr >= u64_value(bytes, headers.at(i) + 16) + u64_value(
                bytes,
                headers.at(i) + 32,
            )),
        0 <= headers.at(index),
        headers.at(index) + 40 > bytes.len(),
    ensures
        headers.at(index) + 4 > bytes.len() ==> file_offset(bytes, vaddr, headers, from) == Err::<
            int,
            ElfError,
        >(ElfError::Truncated(4)),
        headers.at(index) + 4 <= bytes.len() && u32_value(bytes, headers.at(index)) == 1
            ==> file_offset(bytes, vaddr, headers, from) == Err::<int, ElfError>(
            ElfError::Truncated(8),
        ),
    decreases index - from,
{
    if from < index {
        assert(headers.at(from) + 40 <= bytes.len());
        law_cut_headers_end_the_mapping(bytes, vaddr, headers, from + 1, index);
    }
}

/// The errors tell how many bytes were expected, and which address is not mapped, in
/// hexadecimal.
pub proof fn law_errors_tell_their_numbers(count: u64, vaddr: u64)
    ensures
        ElfError::Truncated(count).words() == "truncated ELF: expected "@ + crate::number::decimal(
            count as nat,
        ) + " bytes"@,
        ElfError::Unmapped(vaddr).words() == "could not map vaddr 0x"@ + crate::number::numeral(
            vaddr as nat,
            16,
        ) + " to a file offset"@,
{
}

} // verus!
