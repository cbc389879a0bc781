//! Archives without compression.

use super::hash::{crc32, crc32_of};
use crate::bytes::{lemma_le_len, le_bytes, push_le, push_slice};
use vstd::prelude::*;
use vstd::utf8::encode_utf8;

verus! {

/// Why an archive cannot be written.
#[derive(Clone, Copy, Debug, PartialEq, Eq, Structural)]
pub enum ZipError {
    PathTooLong,
    EntryTooLarge,
    TooLarge,
    TooManyEntries,
}

/// A file of an archive.
pub struct FileView {
    pub name: Seq<u8>,
    pub data: Seq<u8>,
}

/// A number of zero bytes.
pub open spec fn zeros(n: nat) -> Seq<u8> {
    Seq::new(n, |i: int| 0u8)
}

/// The header of a file and the file itself.
pub open spec fn local_record(f: FileView) -> Seq<u8> {
    le_bytes(0x0403_4b50, 4) + le_bytes(20, 2) + le_bytes(0, 2) + le_bytes(0, 2) + zeros(4)
        + le_bytes(crc32(f.data) as nat, 4) + le_bytes(f.data.len(), 4) + le_bytes(f.data.len(), 4)
        + le_bytes(f.name.len(), 2) + le_bytes(0, 2) + f.name + f.data
}

/// The records of several files.
pub open spec fn local_records(files: Seq<FileView>) -> Seq<u8>
    decreases files.len(),
{
    if files.len() == 0 {
        Seq::empty()
    } else {
        local_records(files.drop_last()) + local_record(files.last())
    }
}

/// The directory entry of a file whose record starts at an offset.
pub open spec fn directory_record(f: FileView, offset: nat) -> Seq<u8> {
    le_bytes(0x0201_4b50, 4) + le_bytes(20, 2) + le_bytes(20, 2) + zeros(8) + le_bytes(
        crc32(f.data) as nat,
        4,
    ) + le_bytes(f.data.len(), 4) + le_bytes(f.data.len(), 4) + le_bytes(f.name.len(), 2) + zeros(8)
        + le_bytes(0, 4) + le_bytes(offset, 4) + f.name
}

/// The directory of the first `n` files.
pub open spec fn directory_records(files: Seq<FileView>, n: nat) -> Seq<u8>
    decreases n,
{
    if n == 0 {
        Seq::empty()
    } else {
        directory_records(files, (n - 1) as nat) + directory_record(
            files[n - 1],
            local_records(files.take(n - 1)).len(),
        )
    }
}

/// The end of an archive.
pub open spec fn end_record(count: nat, directory_size: nat, directory_offset: nat) -> Seq<u8> {
    le_bytes(0x0605_4b50, 4) + zeros(4) + le_bytes(count, 2) + le_bytes(count, 2) + le_bytes(
        directory_size,
        4,
    ) + le_bytes(directory_offset, 4) + le_bytes(0, 2)
}

/// Why a file cannot be appended to the files before it, if it cannot.
pub open spec fn entry_error(files: Seq<FileView>, i: int) -> Option<ZipError> {
    if files[i].name.len() > u16::MAX {
        Some(ZipError::PathTooLong)
    } else if files[i].data.len() > u32::MAX {
        Some(ZipError::EntryTooLarge)
    } else if local_records(files.take(i)).len() > u32::MAX {
        Some(ZipError::TooLarge)
    } else {
        None
    }
}

/// The first reason among the first `n` files.
pub open spec fn first_entry_error(files: Seq<FileView>, n: nat) -> Option<ZipError>
    decreases n,
{
    if n == 0 {
        None
    } else {
        match first_entry_error(files, (n - 1) as nat) {
            Some(e) => Some(e),
            None => entry_error(files, n - 1),
        }
    }
}

/// The archive of files, or why there is none.
pub open spec fn archive(files: Seq<FileView>) -> Result<Seq<u8>, ZipError> {
    let records = local_records(files);
    let directory = directory_records(files, files.len());
    match first_entry_error(files, files.len()) {
        Some(e) => Err(e),
        None => if records.len() > u32::MAX || records.len() + directory.len() > u32::MAX {
            Err(ZipError::TooLarge)
        } else if files.len() > u16::MAX {
            Err(ZipError::TooManyEntries)
        } else {
            Ok(records + directory + end_record(files.len(), directory.len(), records.len()))
        },
    }
}

/// The files that names and contents stand for.
pub open spec fn file_views(entries: Seq<(&str, &[u8])>) -> Seq<FileView> {
    entries.map_values(|e: (&str, &[u8])| FileView { name: encode_utf8(e.0@), data: e.1@ })
}

fn push_u16(buffer: &mut Vec<u8>, value: u16)
    ensures
        final(buffer)@ == old(buffer)@ + le_bytes(value as nat, 2),
{
    push_le(buffer, value as u128, 2);
}

fn push_u32(buffer: &mut Vec<u8>, value: u32)
    ensures
        final(buffer)@ == old(buffer)@ + le_bytes(value as nat, 4),
{
    push_le(buffer, value as u128, 4);
}

fn push_zeros(buffer: &mut Vec<u8>, n: usize)
    ensures
        final(buffer)@ == old(buffer)@ + zeros(n as nat),
{
    let ghost start = buffer@;
    let mut i: usize = 0;
    assert(start + zeros(0) =~= start);
    while i < n
        invariant
            i <= n,
            buffer@ == start + zeros(i as nat),
        decreases n - i,
    {
        buffer.push(0);
        i = i + 1;
        assert(buffer@ =~= start + zeros(i as nat));
    }
}

/// Appends the record of a file.
fn push_local(archive: &mut Vec<u8>, name: &[u8], data: &[u8], crc: u32)
    requires
        name@.len() <= u16::MAX,
        data@.len() <= u32::MAX,
        crc == crc32(data@),
    ensures
        final(archive)@ == old(archive)@ + local_record(FileView { name: name@, data: data@ }),
{
    push_u32(archive, 0x0403_4b50);
    push_u16(archive, 20);
    push_u16(archive, 0);
    push_u16(archive, 0);
    push_zeros(archive, 4);
    push_u32(archive, crc);
    push_u32(archive, data.len() as u32);
    push_u32(archive, data.len() as u32);
    push_u16(archive, name.len() as u16);
    push_u16(archive, 0);
    push_slice(archive, name);
    push_slice(archive, data);
    assert(archive@ =~= old(archive)@ + local_record(FileView { name: name@, data: data@ }));
}

/// Appends the directory entry of a file.
fn push_directory(archive: &mut Vec<u8>, name: &[u8], data: &[u8], crc: u32, offset: u32)
    requires
        name@.len() <= u16::MAX,
        data@.len() <= u32::MAX,
        crc == crc32(data@),
    ensures
        final(archive)@ == old(archive)@ + directory_record(
            FileView { name: name@, data: data@ },
            offset as nat,
        ),
{
    push_u32(archive, 0x0201_4b50);
    push_u16(archive, 20);
    push_u16(archive, 20);
    push_zeros(archive, 8);
    push_u32(archive, crc);
    push_u32(archive, data.len() as u32);
    push_u32(archive, data.len() as u32);
    push_u16(archive, name.len() as u16);
    push_zeros(archive, 8);
    push_u32(archive, 0);
    push_u32(archive, offset);
    push_slice(archive, name);
    assert(archive@ =~= old(archive)@ + directory_record(
        FileView { name: name@, data: data@ },
        offset as nat,
    ));
}

/// What the directory remembers of a file.
struct DirectoryEntry {
    crc: u32,
    offset: u32,
}

proof fn lemma_first_entry_error(files: Seq<FileView>, k: nat, n: nat)
    requires
        k <= n,
        first_entry_error(files, k) is Some,
    ensures
        first_entry_error(files, n) == first_entry_error(files, k),
    decreases n,
{
    if k < n {
        lemma_first_entry_error(files, k, (n - 1) as nat);
    }
}

/// Writes files into an archive without compression.
pub fn stored_zip(entries: &[(&str, &[u8])]) -> (r: Result<Vec<u8>, ZipError>)
    ensures
        match archive(file_views(entries@)) {
            Ok(bytes) => r is Ok && r->Ok_0@ == bytes,
            Err(e) => r is Err && r->Err_0 == e,
        },
{
    let ghost files = file_views(entries@);
    let mut out: Vec<u8> = Vec::new();
    let mut directory: Vec<DirectoryEntry> = Vec::new();
    let mut i: usize = 0;
    assert(files.take(0) =~= Seq::<FileView>::empty());
    while i < entries.len()
        invariant
            i <= entries@.len(),
            files == file_views(entries@),
            out@ == local_records(files.take(i as int)),
            directory@.len() == i,
            first_entry_error(files, i as nat) is None,
            forall|k: int|
                0 <= k < i ==> (#[trigger] directory@[k]).crc == crc32(files[k].data)
                    && directory@[k].offset == local_records(files.take(k)).len()
                    && files[k].name.len() <= u16::MAX && files[k].data.len() <= u32::MAX,
        decreases entries@.len() - i,
    {
        let (name, data) = entries[i];
        let name = name.as_bytes();
        proof {
            assert(files[i as int] == (FileView { name: name@, data: data@ }));
            let e = entry_error(files, i as int);
            assert(first_entry_error(files, (i + 1) as nat) == e);
            if e is Some {
                lemma_first_entry_error(files, (i + 1) as nat, files.len());
            }
        }
        if name.len() > 65535 {
            return Err(ZipError::PathTooLong);
        }
        if data.len() > 0xffff_ffff {
            return Err(ZipError::EntryTooLarge);
        }
        if out.len() > 0xffff_ffff {
            return Err(ZipError::TooLarge);
        }
        let offset: u32 = out.len() as u32;
        let crc: u32 = crc32_of(data);
        push_local(&mut out, name, data, crc);
        directory.push(DirectoryEntry { crc, offset });
        proof {
            assert(files.take(i + 1).drop_last() =~= files.take(i as int));
            assert(files.take(i + 1).last() == files[i as int]);
        }
        i = i + 1;
    }
    assert(files.take(i as int) =~= files);
    if out.len() > 0xffff_ffff {
        return Err(ZipError::TooLarge);
    }
    let directory_offset: u32 = out.len() as u32;
    let ghost records = out@;
    let mut j: usize = 0;
    assert(records + Seq::<u8>::empty() =~= records);
    while j < entries.len()
        invariant
            j <= entries@.len(),
            files == file_views(entries@),
            records == local_records(files),
            directory@.len() == entries@.len(),
            out@ == records + directory_records(files, j as nat),
            forall|k: int|
                0 <= k < entries@.len() ==> (#[trigger] directory@[k]).crc == crc32(files[k].data)
                    && directory@[k].offset == local_records(files.take(k)).len()
                    && files[k].name.len() <= u16::MAX && files[k].data.len() <= u32::MAX,
        decreases entries@.len() - j,
    {
        let (name, data) = entries[j];
        let name = name.as_bytes();
        proof {
            assert(files[j as int] == (FileView { name: name@, data: data@ }));
            assert(directory@[j as int].crc == crc32(files[j as int].data));
        }
        let crc: u32 = directory[j].crc;
        let offset: u32 = directory[j].offset;
        push_directory(&mut out, name, data, crc, offset);
        proof {
            assert(out@ =~= records + directory_records(files, (j + 1) as nat));
        }
        j = j + 1;
    }
    if out.len() > 0xffff_ffff {
        return Err(ZipError::TooLarge);
    }
    let directory_size: u32 = out.len() as u32 - directory_offset;
    if entries.len() > 65535 {
        return Err(ZipError::TooManyEntries);
    }
    let count: u16 = entries.len() as u16;
    push_u32(&mut out, 0x0605_4b50);
    push_zeros(&mut out, 4);
    push_u16(&mut out, count);
    push_u16(&mut out, count);
    push_u32(&mut out, directory_size);
    push_u32(&mut out, directory_offset);
    push_u16(&mut out, 0);
    assert(out@ =~= records + directory_records(files, files.len()) + end_record(
        files.len(),
        directory_size as nat,
        records.len(),
    ));
    Ok(out)
}

/// The offset at which a file's record starts.
pub open spec fn record_offset(files: Seq<FileView>, i: int) -> int {
    local_records(files.take(i)).len() as int
}

/// The length of the header in front of a file's name.
pub open spec fn header_len() -> int {
    30
}

proof fn lemma_local_record_len(f: FileView)
    ensures
        local_record(f).len() == header_len() + f.name.len() + f.data.len(),
        local_record(f).subrange(header_len(), header_len() + f.name.len() as int) == f.name,
        local_record(f).subrange(
            header_len() + f.name.len() as int,
            local_record(f).len() as int,
        ) == f.data,
{
    lemma_le_len(0x0403_4b50, 4);
    lemma_le_len(20, 2);
    lemma_le_len(0, 2);
    lemma_le_len(crc32(f.data) as nat, 4);
    lemma_le_len(f.data.len(), 4);
    lemma_le_len(f.name.len(), 2);
    assert(local_record(f).subrange(header_len(), header_len() + f.name.len() as int) =~= f.name);
    assert(local_record(f).subrange(
        header_len() + f.name.len() as int,
        local_record(f).len() as int,
    ) =~= f.data);
}

proof fn lemma_record_at(files: Seq<FileView>, i: int)
    requires
        0 <= i < files.len(),
    ensures
        record_offset(files, i) + local_record(files[i]).len() <= local_records(files).len(),
        local_records(files).subrange(
            record_offset(files, i),
            record_offset(files, i) + local_record(files[i]).len() as int,
        ) == local_record(files[i]),
    decreases files.len(),
{
    let before = files.drop_last();
    let at = record_offset(files, i);
    let len = local_record(files[i]).len() as int;
    if i < files.len() - 1 {
        lemma_record_at(before, i);
        assert(files.take(i) =~= before.take(i));
        assert(local_records(files).subrange(at, at + len) =~= local_records(before).subrange(
            at,
            at + len,
        ));
    } else {
        assert(files.take(i) =~= before);
        assert(local_records(files).subrange(at, at + len) =~= local_record(files[i]));
    }
}

/// Every file can be read back from the archive: its name and its bytes stand behind
/// the header at the offset that the directory gives.
pub proof fn law_files_are_found_at_their_offsets(files: Seq<FileView>, i: int)
    requires
        archive(files) is Ok,
        0 <= i < files.len(),
    ensures
        ({
            let bytes = archive(files)->Ok_0;
            let name = record_offset(files, i) + header_len();
            let data = name + files[i].name.len() as int;
            &&& data + files[i].data.len() <= bytes.len()
            &&& bytes.subrange(name, data) == files[i].name
            &&& bytes.subrange(data, data + files[i].data.len() as int) == files[i].data
        }),
{
    let bytes = archive(files)->Ok_0;
    let records = local_records(files);
    let f = files[i];
    let at = record_offset(files, i);
    let name = at + header_len();
    let data = name + f.name.len() as int;
    lemma_record_at(files, i);
    lemma_local_record_len(f);
    let record = local_record(f);
    assert(records.subrange(at, at + record.len() as int) == record);
    assert(bytes.subrange(name, data) =~= record.subrange(
        header_len(),
        header_len() + f.name.len() as int,
    ));
    assert(bytes.subrange(data, data + f.data.len() as int) =~= record.subrange(
        header_len() + f.name.len() as int,
        record.len() as int,
    ));
}

/// The number in a field of an archive.
pub open spec fn field(bytes: Seq<u8>, at: int, width: int) -> nat {
    crate::bytes::le_value(bytes.subrange(at, at + width))
}

/// How many files a reader finds in an archive: its last record says so.
pub open spec fn file_count(bytes: Seq<u8>) -> nat {
    field(bytes, bytes.len() - 12, 2)
}

/// Where a reader finds a file's entry in the directory: the last record says where the first
/// is, and each says how long its name is.
pub open spec fn entry_at(bytes: Seq<u8>, i: nat) -> int
    decreases i,
{
    if i == 0 {
        field(bytes, bytes.len() - 6, 4) as int
    } else {
        let before = entry_at(bytes, (i - 1) as nat);
        before + 46 + field(bytes, before + 28, 2)
    }
}

/// The name that a reader finds in a file's entry.
pub open spec fn file_name(bytes: Seq<u8>, i: nat) -> Seq<u8> {
    let at = entry_at(bytes, i);
    bytes.subrange(at + 46, at + 46 + field(bytes, at + 28, 2))
}

/// The bytes that a reader finds of a file: its entry says where its record is, and that says
/// how long the name in front of them and they are.
pub open spec fn file_data(bytes: Seq<u8>, i: nat) -> Seq<u8> {
    let record = field(bytes, entry_at(bytes, i) + 42, 4) as int;
    let start = record + 30 + field(bytes, record + 26, 2) + field(bytes, record + 28, 2);
    bytes.subrange(start, start + field(bytes, record + 18, 4))
}

proof fn lemma_field(bytes: Seq<u8>, at: int, width: nat, value: nat)
    requires
        0 <= at <= at + width <= bytes.len(),
        bytes.subrange(at, at + width) == le_bytes(value, width),
        value < crate::bytes::pow256(width),
    ensures
        field(bytes, at, width as int) == value,
{
    crate::bytes::lemma_le_round_trip(value, width);
}

proof fn lemma_within(whole: Seq<u8>, part: Seq<u8>, at: int, from: int, to: int)
    requires
        0 <= at <= at + part.len() <= whole.len(),
        whole.subrange(at, at + part.len()) == part,
        0 <= from <= to <= part.len(),
    ensures
        whole.subrange(at + from, at + to) == part.subrange(from, to),
{
    assert(whole.subrange(at + from, at + to) =~= whole.subrange(at, at + part.len()).subrange(
        from,
        to,
    ));
}

proof fn lemma_local_fields(f: FileView)
    requires
        f.name.len() <= u16::MAX,
        f.data.len() <= u32::MAX,
    ensures
        local_record(f).len() == 30 + f.name.len() + f.data.len(),
        local_record(f).subrange(0, 4) == le_bytes(0x0403_4b50, 4),
        local_record(f).subrange(8, 10) == le_bytes(0, 2),
        local_record(f).subrange(14, 18) == le_bytes(crc32(f.data) as nat, 4),
        local_record(f).subrange(18, 22) == le_bytes(f.data.len(), 4),
        local_record(f).subrange(22, 26) == le_bytes(f.data.len(), 4),
        local_record(f).subrange(26, 28) == le_bytes(f.name.len(), 2),
        local_record(f).subrange(28, 30) == le_bytes(0, 2),
        local_record(f).subrange(30 + f.name.len() as int, local_record(f).len() as int) == f.data,
{
    lemma_local_record_len(f);
    lemma_le_len(0x0403_4b50, 4);
    lemma_le_len(20, 2);
    lemma_le_len(0, 2);
    lemma_le_len(crc32(f.data) as nat, 4);
    lemma_le_len(f.data.len(), 4);
    lemma_le_len(f.name.len(), 2);
    let r = local_record(f);
    assert(r.subrange(0, 4) =~= le_bytes(0x0403_4b50, 4));
    assert(r.subrange(8, 10) =~= le_bytes(0, 2));
    assert(r.subrange(14, 18) =~= le_bytes(crc32(f.data) as nat, 4));
    assert(r.subrange(18, 22) =~= le_bytes(f.data.len(), 4));
    assert(r.subrange(22, 26) =~= le_bytes(f.data.len(), 4));
    assert(r.subrange(26, 28) =~= le_bytes(f.name.len(), 2));
    assert(r.subrange(28, 30) =~= le_bytes(0, 2));
}

proof fn lemma_directory_fields(f: FileView, offset: nat)
    ensures
        directory_record(f, offset).len() == 46 + f.name.len(),
        directory_record(f, offset).subrange(0, 4) == le_bytes(0x0201_4b50, 4),
        directory_record(f, offset).subrange(16, 20) == le_bytes(crc32(f.data) as nat, 4),
        directory_record(f, offset).subrange(20, 24) == le_bytes(f.data.len(), 4),
        directory_record(f, offset).subrange(24, 28) == le_bytes(f.data.len(), 4),
        directory_record(f, offset).subrange(28, 30) == le_bytes(f.name.len(), 2),
        directory_record(f, offset).subrange(42, 46) == le_bytes(offset, 4),
        directory_record(f, offset).subrange(46, 46 + f.name.len() as int) == f.name,
{
    lemma_le_len(0x0201_4b50, 4);
    lemma_le_len(20, 2);
    lemma_le_len(0, 4);
    lemma_le_len(crc32(f.data) as nat, 4);
    lemma_le_len(f.data.len(), 4);
    lemma_le_len(f.name.len(), 2);
    lemma_le_len(offset, 4);
    let r = directory_record(f, offset);
    assert(r.subrange(0, 4) =~= le_bytes(0x0201_4b50, 4));
    assert(r.subrange(16, 20) =~= le_bytes(crc32(f.data) as nat, 4));
    assert(r.subrange(20, 24) =~= le_bytes(f.data.len(), 4));
    assert(r.subrange(24, 28) =~= le_bytes(f.data.len(), 4));
    assert(r.subrange(28, 30) =~= le_bytes(f.name.len(), 2));
    assert(r.subrange(42, 46) =~= le_bytes(offset, 4));
    assert(r.subrange(46, 46 + f.name.len() as int) =~= f.name);
}

proof fn lemma_end_fields(count: nat, size: nat, offset: nat)
    ensures
        end_record(count, size, offset).len() == 22,
        end_record(count, size, offset).subrange(0, 4) == le_bytes(0x0605_4b50, 4),
        end_record(count, size, offset).subrange(8, 10) == le_bytes(count, 2),
        end_record(count, size, offset).subrange(10, 12) == le_bytes(count, 2),
        end_record(count, size, offset).subrange(12, 16) == le_bytes(size, 4),
        end_record(count, size, offset).subrange(16, 20) == le_bytes(offset, 4),
{
    lemma_le_len(0x0605_4b50, 4);
    lemma_le_len(count, 2);
    lemma_le_len(size, 4);
    lemma_le_len(offset, 4);
    lemma_le_len(0, 2);
    let r = end_record(count, size, offset);
    assert(r.subrange(0, 4) =~= le_bytes(0x0605_4b50, 4));
    assert(r.subrange(8, 10) =~= le_bytes(count, 2));
    assert(r.subrange(10, 12) =~= le_bytes(count, 2));
    assert(r.subrange(12, 16) =~= le_bytes(size, 4));
    assert(r.subrange(16, 20) =~= le_bytes(offset, 4));
}

proof fn lemma_directory_at(files: Seq<FileView>, n: nat, i: int)
    requires
        0 <= i < n <= files.len(),
    ensures
        ({
            let all = directory_records(files, n);
            let at = directory_records(files, i as nat).len() as int;
            let one = directory_record(files[i], local_records(files.take(i)).len());
            &&& at + one.len() <= all.len()
            &&& all.subrange(at, at + one.len()) == one
            &&& directory_records(files, (i + 1) as nat).len() == at + one.len()
        }),
    decreases n,
{
    let m = (n - 1) as nat;
    let all = directory_records(files, n);
    let at = directory_records(files, i as nat).len() as int;
    let one = directory_record(files[i], local_records(files.take(i)).len());
    if i < m {
        lemma_directory_at(files, m, i);
        assert(all.subrange(at, at + one.len()) =~= directory_records(files, m).subrange(
            at,
            at + one.len(),
        ));
    } else {
        assert(all.subrange(at, at + one.len()) =~= one);
    }
}

proof fn lemma_no_entry_error(files: Seq<FileView>, n: nat, i: int)
    requires
        first_entry_error(files, n) is None,
        0 <= i < n,
    ensures
        entry_error(files, i) is None,
    decreases n,
{
    if i < n - 1 {
        lemma_no_entry_error(files, (n - 1) as nat, i);
    }
}

proof fn lemma_entry_is_found(files: Seq<FileView>, i: nat)
    requires
        archive(files) is Ok,
        i < files.len(),
    ensures
        entry_at(archive(files)->Ok_0, i) == local_records(files).len() + directory_records(
            files,
            i,
        ).len(),
        ({
            let bytes = archive(files)->Ok_0;
            let at = entry_at(bytes, i);
            let one = directory_record(
                files[i as int],
                local_records(files.take(i as int)).len(),
            );
            &&& 0 <= at <= at + one.len() <= bytes.len()
            &&& bytes.subrange(at, at + one.len()) == one
            &&& field(bytes, at + 28, 2) == files[i as int].name.len()
        }),
    decreases i,
{
    let bytes = archive(files)->Ok_0;
    let records = local_records(files);
    let directory = directory_records(files, files.len());
    let end = end_record(files.len(), directory.len(), records.len());
    crate::bytes::lemma_pow256_values();
    lemma_end_fields(files.len(), directory.len(), records.len());
    let e = bytes.len() - 22;
    assert(bytes.subrange(e, e + end.len()) =~= end);
    lemma_within(bytes, end, e, 16, 20);
    lemma_field(bytes, e + 16, 4, records.len());
    if i > 0 {
        lemma_entry_is_found(files, (i - 1) as nat);
        lemma_directory_at(files, files.len(), i - 1);
        lemma_directory_fields(files[i - 1], local_records(files.take(i - 1)).len());
    }
    let at = entry_at(bytes, i);
    let one = directory_record(files[i as int], local_records(files.take(i as int)).len());
    lemma_directory_at(files, files.len(), i as int);
    let inner = directory_records(files, i).len() as int;
    assert(at == records.len() + inner);
    assert(bytes.subrange(at, at + one.len()) =~= directory.subrange(inner, inner + one.len()));
    lemma_directory_fields(files[i as int], local_records(files.take(i as int)).len());
    lemma_no_entry_error(files, files.len(), i as int);
    lemma_within(bytes, one, at, 28, 30);
    lemma_field(bytes, at + 28, 2, files[i as int].name.len());
}

proof fn lemma_part_field(whole: Seq<u8>, part: Seq<u8>, at: int, from: int, width: nat, value: nat)
    requires
        0 <= at <= at + part.len() <= whole.len(),
        whole.subrange(at, at + part.len()) == part,
        0 <= from <= from + width <= part.len(),
        part.subrange(from, from + width) == le_bytes(value, width),
        value < crate::bytes::pow256(width),
    ensures
        field(whole, at + from, width as int) == value,
{
    lemma_within(whole, part, at, from, from + width);
    lemma_field(whole, at + from, width, value);
}

proof fn lemma_read_end(files: Seq<FileView>)
    requires
        archive(files) is Ok,
    ensures
        ({
            let bytes = archive(files)->Ok_0;
            &&& file_count(bytes) == files.len()
            &&& field(bytes, bytes.len() - 22, 4) == 0x0605_4b50
            &&& field(bytes, bytes.len() - 14, 2) == files.len()
        }),
{
    let bytes = archive(files)->Ok_0;
    let records = local_records(files);
    let directory = directory_records(files, files.len());
    let end = end_record(files.len(), directory.len(), records.len());
    crate::bytes::lemma_pow256_values();
    lemma_end_fields(files.len(), directory.len(), records.len());
    let e = bytes.len() - 22;
    assert(bytes.subrange(e, e + end.len()) =~= end);
    lemma_part_field(bytes, end, e, 0, 4, 0x0605_4b50);
    lemma_part_field(bytes, end, e, 8, 2, files.len());
    lemma_part_field(bytes, end, e, 10, 2, files.len());
}

proof fn lemma_read_entry(files: Seq<FileView>, i: int)
    requires
        archive(files) is Ok,
        0 <= i < files.len(),
    ensures
        ({
            let bytes = archive(files)->Ok_0;
            let entry = entry_at(bytes, i as nat);
            &&& file_name(bytes, i as nat) == files[i].name
            &&& field(bytes, entry, 4) == 0x0201_4b50
            &&& field(bytes, entry + 16, 4) == crc32(files[i].data)
            &&& field(bytes, entry + 20, 4) == files[i].data.len()
            &&& field(bytes, entry + 24, 4) == files[i].data.len()
            &&& field(bytes, entry + 42, 4) == local_records(files.take(i)).len()
        }),
{
    let bytes = archive(files)->Ok_0;
    let f = files[i];
    crate::bytes::lemma_pow256_values();
    lemma_entry_is_found(files, i as nat);
    lemma_no_entry_error(files, files.len(), i);
    let offset = local_records(files.take(i)).len();
    let entry = entry_at(bytes, i as nat);
    let one = directory_record(f, offset);
    lemma_directory_fields(f, offset);
    lemma_within(bytes, one, entry, 46, 46 + f.name.len() as int);
    lemma_part_field(bytes, one, entry, 0, 4, 0x0201_4b50);
    lemma_part_field(bytes, one, entry, 16, 4, crc32(f.data) as nat);
    lemma_part_field(bytes, one, entry, 20, 4, f.data.len());
    lemma_part_field(bytes, one, entry, 24, 4, f.data.len());
    lemma_part_field(bytes, one, entry, 42, 4, offset);
}

proof fn lemma_read_record(files: Seq<FileView>, i: int)
    requires
        archive(files) is Ok,
        0 <= i < files.len(),
    ensures
        ({
            let bytes = archive(files)->Ok_0;
            let record = local_records(files.take(i)).len() as int;
            let data = record + 30 + files[i].name.len();
            &&& field(bytes, record, 4) == 0x0403_4b50
            &&& field(bytes, record + 8, 2) == 0
            &&& field(bytes, record + 14, 4) == crc32(files[i].data)
            &&& field(bytes, record + 18, 4) == files[i].data.len()
            &&& field(bytes, record + 22, 4) == files[i].data.len()
            &&& field(bytes, record + 26, 2) == files[i].name.len()
            &&& field(bytes, record + 28, 2) == 0
            &&& bytes.subrange(record + 30, data) == files[i].name
            &&& bytes.subrange(data, data + files[i].data.len()) == files[i].data
        }),
{
    let bytes = archive(files)->Ok_0;
    let records = local_records(files);
    let f = files[i];
    crate::bytes::lemma_pow256_values();
    lemma_no_entry_error(files, files.len(), i);
    let record = local_records(files.take(i)).len() as int;
    let local = local_record(f);
    lemma_record_at(files, i);
    lemma_local_fields(f);
    lemma_local_record_len(f);
    assert(bytes.subrange(record, record + local.len()) =~= records.subrange(
        record,
        record + local.len(),
    ));
    lemma_part_field(bytes, local, record, 0, 4, 0x0403_4b50);
    lemma_part_field(bytes, local, record, 8, 2, 0);
    lemma_part_field(bytes, local, record, 14, 4, crc32(f.data) as nat);
    lemma_part_field(bytes, local, record, 18, 4, f.data.len());
    lemma_part_field(bytes, local, record, 22, 4, f.data.len());
    lemma_part_field(bytes, local, record, 26, 2, f.name.len());
    lemma_part_field(bytes, local, record, 28, 2, 0);
    lemma_within(bytes, local, record, 30, 30 + f.name.len() as int);
    lemma_within(bytes, local, record, 30 + f.name.len() as int, local.len() as int);
}

/// A reader that goes by the last record and the directory finds every file in the archive,
/// each with its name, its bytes and its checksum, and no other.
pub proof fn law_a_reader_finds_every_file(files: Seq<FileView>, i: int)
    requires
        archive(files) is Ok,
        0 <= i < files.len(),
    ensures
        ({
            let bytes = archive(files)->Ok_0;
            let entry = entry_at(bytes, i as nat);
            let record = field(bytes, entry + 42, 4) as int;
            &&& file_count(bytes) == files.len()
            &&& file_name(bytes, i as nat) == files[i].name
            &&& file_data(bytes, i as nat) == files[i].data
            &&& field(bytes, bytes.len() - 22, 4) == 0x0605_4b50
            &&& field(bytes, bytes.len() - 14, 2) == files.len()
            &&& field(bytes, entry, 4) == 0x0201_4b50
            &&& field(bytes, entry + 16, 4) == crc32(files[i].data)
            &&& field(bytes, entry + 20, 4) == files[i].data.len()
            &&& field(bytes, entry + 24, 4) == files[i].data.len()
            &&& field(bytes, record, 4) == 0x0403_4b50
            &&& field(bytes, record + 8, 2) == 0
            &&& field(bytes, record + 14, 4) == crc32(files[i].data)
            &&& field(bytes, record + 18, 4) == files[i].data.len()
            &&& field(bytes, record + 22, 4) == files[i].data.len()
            &&& bytes.subrange(record + 30, record + 30 + field(bytes, record + 26, 2))
                == files[i].name
        }),
{
    lemma_read_end(files);
    lemma_read_entry(files, i);
    lemma_read_record(files, i);
}

proof fn lemma_records_bound(files: Seq<FileView>, i: int)
    requires
        0 <= i < files.len(),
    ensures
        30 + files[i].name.len() + files[i].data.len() <= local_records(files).len(),
{
    lemma_record_at(files, i);
    lemma_local_record_len(files[i]);
}

/// An archive is refused for nothing but its size: where names and files are short, all of it
/// is, and the files are few, there is one.
pub proof fn law_small_archives_are_written(files: Seq<FileView>)
    ensures
        archive(files) is Ok <==> {
            &&& files.len() <= u16::MAX
            &&& forall|i: int|
                0 <= i < files.len() ==> (#[trigger] files[i]).name.len() <= u16::MAX
            &&& local_records(files).len() + directory_records(files, files.len()).len() <= u32::MAX
        },
        archive(files) matches Ok(bytes) ==> bytes.len() == local_records(files).len()
            + directory_records(files, files.len()).len() + 22,
{
    lemma_end_fields(
        files.len(),
        directory_records(files, files.len()).len(),
        local_records(files).len(),
    );
    if archive(files) is Ok {
        assert forall|i: int| 0 <= i < files.len() implies (#[trigger] files[i]).name.len()
            <= u16::MAX by {
            lemma_no_entry_error(files, files.len(), i);
        }
    } else if files.len() <= u16::MAX && (forall|i: int|
        0 <= i < files.len() ==> (#[trigger] files[i]).name.len() <= u16::MAX)
        && local_records(files).len() + directory_records(files, files.len()).len() <= u32::MAX {
        lemma_no_error_when_small(files, files.len());
    }
}

proof fn lemma_no_error_when_small(files: Seq<FileView>, n: nat)
    requires
        n <= files.len(),
        forall|i: int| 0 <= i < files.len() ==> (#[trigger] files[i]).name.len() <= u16::MAX,
        local_records(files).len() <= u32::MAX,
    ensures
        first_entry_error(files, n) is None,
    decreases n,
{
    if n > 0 {
        lemma_no_error_when_small(files, (n - 1) as nat);
        lemma_records_bound(files, n - 1);
        lemma_record_at(files, n - 1);
        assert(files[n - 1].name.len() <= u16::MAX);
    }
}

/// A file is refused for the first of these that holds: a name of more than 65535 bytes, more
/// data than 32 bits can count, or a place in the archive beyond that. The first file that is
/// refused has the archive refused.
pub proof fn law_files_are_refused_by_their_size(files: Seq<FileView>, k: int)
    requires
        0 <= k < files.len(),
    ensures
        ({
            let long = files[k].name.len() > 0xffff;
            let large = files[k].data.len() > 0xffff_ffff;
            let far = local_records(files.take(k)).len() > 0xffff_ffff;
            &&& entry_error(files, k) == Some(ZipError::PathTooLong) <==> long
            &&& entry_error(files, k) == Some(ZipError::EntryTooLarge) <==> !long && large
            &&& entry_error(files, k) == Some(ZipError::TooLarge) <==> !long && !large && far
            &&& entry_error(files, k) is None <==> !long && !large && !far
        }),
        entry_error(files, k) is Some && (forall|j: int|
            0 <= j < k ==> (#[trigger] entry_error(files, j)) is None) ==> first_entry_error(
            files,
            files.len(),
        ) == entry_error(files, k),
        first_entry_error(files, files.len()) matches Some(e) ==> archive(files) == Err::<
            Seq<u8>,
            ZipError,
        >(e),
{
    if entry_error(files, k) is Some && (forall|j: int|
        0 <= j < k ==> (#[trigger] entry_error(files, j)) is None) {
        lemma_first_fault(files, files.len(), k);
    }
}

proof fn lemma_first_fault(files: Seq<FileView>, n: nat, k: int)
    requires
        0 <= k,
        entry_error(files, k) is Some,
        forall|j: int| 0 <= j < k ==> (#[trigger] entry_error(files, j)) is None,
    ensures
        n <= k ==> first_entry_error(files, n) is None,
        n > k ==> first_entry_error(files, n) == entry_error(files, k),
    decreases n,
{
    if n > 0 {
        lemma_first_fault(files, (n - 1) as nat, k);
        assert(n - 1 < k ==> entry_error(files, n - 1) is None);
    }
}

} // verus!
