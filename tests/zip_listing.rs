use remote_archive::{
    list_entries, read_entry, ArchiveError, CentralDirEntry, DirLocation, EndOfCentralDir, ListingSession, Step,
    EndOfCentralDir64, EndOfCentralDir64Locator, Entry, EntryIter, Fetch, Located, ZipFile,
};

fn le16(v: u16) -> Vec<u8> {
    v.to_le_bytes().to_vec()
}

fn le32(v: u32) -> Vec<u8> {
    v.to_le_bytes().to_vec()
}

fn le64(v: u64) -> Vec<u8> {
    v.to_le_bytes().to_vec()
}

fn cd_record(name: &[u8], flags: u16, sizes: (u32, u32, u32), extra: &[u8], comment: &[u8]) -> Vec<u8> {
    let mut r = le32(0x02014b50);
    r.extend(le16(20)); // version made by
    r.extend(le16(20)); // version needed
    r.extend(le16(flags));
    r.extend(le16(0)); // compression
    r.extend(le16(0)); // time
    r.extend(le16(0)); // date
    r.extend(le32(0)); // crc32
    r.extend(le32(sizes.0)); // compressed
    r.extend(le32(sizes.1)); // uncompressed
    r.extend(le16(name.len() as u16));
    r.extend(le16(extra.len() as u16));
    r.extend(le16(comment.len() as u16));
    r.extend(le16(0)); // disk start
    r.extend(le16(0)); // internal attributes
    r.extend(le32(0)); // external attributes
    r.extend(le32(sizes.2)); // local header offset
    r.extend_from_slice(name);
    r.extend_from_slice(extra);
    r.extend_from_slice(comment);
    r
}

fn eocd(n: u16, cd_size: u32, cd_off: u32, comment: &[u8]) -> Vec<u8> {
    let mut r = le32(0x06054b50);
    r.extend(le16(0));
    r.extend(le16(0));
    r.extend(le16(n));
    r.extend(le16(n));
    r.extend(le32(cd_size));
    r.extend(le32(cd_off));
    r.extend(le16(comment.len() as u16));
    r.extend_from_slice(comment);
    r
}

/// An archive with `lead` filler bytes where the local data would be, then the directory.
fn simple_zip(names: &[&str], lead: usize, comment: &[u8]) -> Vec<u8> {
    let mut image = vec![0xAAu8; lead];
    let mut cd = Vec::new();
    for (i, n) in names.iter().enumerate() {
        cd.extend(cd_record(n.as_bytes(), 0, (i as u32, 2 * i as u32, 7 * i as u32), &[], &[]));
    }
    let cd_off = image.len() as u32;
    let cd_size = cd.len() as u32;
    image.extend(cd);
    image.extend(eocd(names.len() as u16, cd_size, cd_off, comment));
    image
}

fn names_of(entries: &[Entry]) -> Vec<String> {
    entries.iter().map(|e| e.filename.clone()).collect()
}

/// Runs a listing the way a remote session does, counting the fetches.
fn remote_style_listing(image: &[u8]) -> (Result<Vec<Entry>, ArchiveError>, Vec<Fetch>) {
    let mut fetches = Vec::new();
    let zip = ZipFile::new(image.len() as u64);
    let get = |f: Fetch| image[f.start as usize..(f.start + f.len) as usize].to_vec();
    let tail = match zip.tail_fetch() {
        Ok(t) => t,
        Err(e) => return (Err(e), fetches),
    };
    fetches.push(tail);
    let loc = match zip.locate(&get(tail)) {
        Ok(Located::Classic(loc)) => loc,
        Ok(Located::Zip64(lf)) => {
            fetches.push(lf);
            let ef = match zip.read_locator(&get(lf)) {
                Ok(ef) => ef,
                Err(e) => return (Err(e), fetches),
            };
            fetches.push(ef);
            match zip.read_zip64_end(&get(ef)) {
                Ok(loc) => loc,
                Err(e) => return (Err(e), fetches),
            }
        }
        Err(e) => return (Err(e), fetches),
    };
    let df = ZipFile::directory_fetch(&loc);
    fetches.push(df);
    let mut it = ZipFile::entry_iter(&loc, get(df));
    (it.collect_entries(), fetches)
}

#[test]
fn small_flat_zip() {
    let names = ["a.txt", "b/", "b/c.txt"];
    let cd_len: usize = names.iter().map(|n| 46 + n.len()).sum();
    let lead = 900 - 22 - cd_len;
    let image = simple_zip(&names, lead, &[]);
    assert_eq!(image.len(), 900);
    let (r, fetches) = remote_style_listing(&image);
    let entries = r.unwrap();
    assert_eq!(names_of(&entries), vec!["a.txt", "b/", "b/c.txt"]);
    // the probe makes one more fetch
    assert!(fetches.len() + 1 <= 4);
    assert_eq!(fetches[0], Fetch { start: 0, len: 900 });
    assert_eq!(entries[2].compressed_size, 2);
    assert_eq!(entries[2].uncompressed_size, 4);
    assert_eq!(entries[2].local_header_offset, 14);
}

#[test]
fn zip_with_long_comment() {
    let comment = vec![b'x'; 65500];
    let image = simple_zip(&["one", "two"], 1000, &comment);
    let (r, fetches) = remote_style_listing(&image);
    assert_eq!(fetches[0].len, 65557);
    assert_eq!(fetches[0].start, image.len() as u64 - 65557);
    assert_eq!(names_of(&r.unwrap()), vec!["one", "two"]);
}

#[test]
fn comment_holding_a_signature_is_skipped() {
    // a fake end record inside the comment whose comment length does not reach the end
    let mut comment = eocd(9, 9, 9, &[]);
    comment.extend(vec![b'y'; 40]);
    let image = simple_zip(&["real"], 10, &comment);
    assert_eq!(names_of(&list_entries(&image).unwrap()), vec!["real"]);
}

#[test]
fn zip64_archive() {
    let count: u64 = 80000;
    let mut image = vec![0u8; 16];
    let cd_off = image.len() as u64;
    for i in 0..count {
        image.extend(cd_record(format!("f{i}").as_bytes(), 0, (1, 1, 0), &[], &[]));
    }
    let cd_size = image.len() as u64 - cd_off;
    let eocd64_off = image.len() as u64;
    image.extend(le32(0x06064b50));
    image.extend(le64(44));
    image.extend(le16(45));
    image.extend(le16(45));
    image.extend(le32(0));
    image.extend(le32(0));
    image.extend(le64(count));
    image.extend(le64(count));
    image.extend(le64(cd_size));
    image.extend(le64(cd_off));
    image.extend(le32(0x07064b50));
    image.extend(le32(0));
    image.extend(le64(eocd64_off));
    image.extend(le32(1));
    let mut end = le32(0x06054b50);
    end.extend(le16(0));
    end.extend(le16(0));
    end.extend(le16(0xFFFF));
    end.extend(le16(0xFFFF));
    end.extend(le32(0xFFFF_FFFF));
    end.extend(le32(0xFFFF_FFFF));
    end.extend(le16(0));
    image.extend(end);
    let size = image.len() as u64;
    let (r, fetches) = remote_style_listing(&image);
    assert_eq!(fetches[1], Fetch { start: size - 20 - 22, len: 20 });
    assert_eq!(fetches[2], Fetch { start: eocd64_off, len: 56 });
    assert_eq!(fetches[3], Fetch { start: cd_off, len: cd_size });
    let entries = r.unwrap();
    assert_eq!(entries.len(), 80000);
    assert_eq!(entries[79999].filename, "f79999");
}

#[test]
fn truncated_archive() {
    let image = vec![0u8; 20];
    assert_eq!(ZipFile::new(20).tail_fetch(), Err(ArchiveError::Truncated));
    assert!(matches!(list_entries(&image), Err(ArchiveError::Truncated)));
}

#[test]
fn not_a_zip() {
    let image = vec![7u8; 500];
    assert!(matches!(list_entries(&image), Err(ArchiveError::NotAZip)));
}

#[test]
fn wrong_directory_signature_is_corrupt() {
    let mut image = simple_zip(&["a"], 4, &[]);
    image[4] = 0;
    assert!(matches!(list_entries(&image), Err(ArchiveError::Corrupt)));
}

#[test]
fn directory_past_end_is_corrupt() {
    let mut image = simple_zip(&["a"], 4, &[]);
    let n = image.len();
    // cd_size field of the end record
    image[n - 10] = 0xFF;
    assert!(matches!(list_entries(&image), Err(ArchiveError::Corrupt)));
}

#[test]
fn round_trip_names() {
    let names: Vec<String> = (0..37).map(|i| format!("dir{}/file_{}.bin", i % 5, i)).collect();
    let refs: Vec<&str> = names.iter().map(|s| s.as_str()).collect();
    let image = simple_zip(&refs, 300, &[]);
    let entries = list_entries(&image).unwrap();
    assert_eq!(entries.len(), 37);
    assert_eq!(names_of(&entries), names);
    for (e, n) in entries.iter().zip(names.iter()) {
        assert_eq!(e.raw_name, n.as_bytes().to_vec());
    }
}

#[test]
fn listing_twice_is_identical() {
    let image = simple_zip(&["x", "y/z", "w"], 50, b"c");
    let a = list_entries(&image).unwrap();
    let b = list_entries(&image).unwrap();
    assert_eq!(names_of(&a), names_of(&b));
    let loc = DirLocation { offset: 50, size: (46 * 3 + 5) as u64, num_records: 3 };
    let block = image[50..50 + 46 * 3 + 5].to_vec();
    let mut first = ZipFile::entry_iter(&loc, block.clone());
    let mut second = ZipFile::entry_iter(&loc, block);
    assert_eq!(names_of(&first.collect_entries().unwrap()), names_of(&second.collect_entries().unwrap()));
}

#[test]
fn entry_iter_yields_then_stops() {
    let mut block = cd_record(b"one", 0, (1, 2, 3), &[], &[]);
    block.extend(cd_record(b"two", 0, (4, 5, 6), b"\x09\x00\x00\x00", b"hi"));
    let mut it = EntryIter::new(block, 2);
    assert_eq!(it.remaining(), 2);
    assert_eq!(it.next().unwrap().unwrap().filename, "one");
    let two = it.next().unwrap().unwrap();
    assert_eq!(two.filename, "two");
    assert_eq!(two.local_header_offset, 6);
    assert!(it.next().is_none());
}

#[test]
fn entry_iter_stops_after_failure() {
    let block = vec![1u8; 60];
    let mut it = EntryIter::new(block, 3);
    assert!(matches!(it.next(), Some(Err(ArchiveError::Corrupt))));
    assert!(it.next().is_none());
}

#[test]
fn zip64_extra_field_overrides_sizes() {
    let mut extra = le16(0x5455); // an unrelated field first
    extra.extend(le16(1));
    extra.push(0);
    extra.extend(le16(0x0001));
    extra.extend(le16(24));
    extra.extend(le64(5_000_000_000));
    extra.extend(le64(4_900_000_000));
    extra.extend(le64(6_000_000_000));
    let block = cd_record(b"big.bin", 0, (0xFFFF_FFFF, 0xFFFF_FFFF, 0xFFFF_FFFF), &extra, &[]);
    let (e, next) = read_entry(&block, 0).unwrap();
    assert_eq!(next, block.len());
    assert_eq!(e.uncompressed_size, 5_000_000_000);
    assert_eq!(e.compressed_size, 4_900_000_000);
    assert_eq!(e.local_header_offset, 6_000_000_000);
}

#[test]
fn zip64_extra_field_partial_override() {
    let mut extra = le16(0x0001);
    extra.extend(le16(8));
    extra.extend(le64(7_000_000_000));
    let block = cd_record(b"u", 0, (10, 0xFFFF_FFFF, 20), &extra, &[]);
    let (e, _) = read_entry(&block, 0).unwrap();
    assert_eq!(e.uncompressed_size, 7_000_000_000);
    assert_eq!(e.compressed_size, 10);
    assert_eq!(e.local_header_offset, 20);
}

#[test]
fn missing_zip64_extra_field_is_corrupt() {
    let block = cd_record(b"u", 0, (10, 0xFFFF_FFFF, 20), &[], &[]);
    assert!(matches!(read_entry(&block, 0), Err(ArchiveError::Corrupt)));
}

#[test]
fn name_past_block_is_corrupt() {
    let mut block = cd_record(b"abc", 0, (0, 0, 0), &[], &[]);
    block.truncate(47);
    assert!(matches!(read_entry(&block, 0), Err(ArchiveError::Corrupt)));
}

#[test]
fn short_header_is_truncated() {
    let block = cd_record(b"abc", 0, (0, 0, 0), &[], &[]);
    assert!(matches!(read_entry(&block[..30], 0), Err(ArchiveError::Truncated)));
}

#[test]
fn cp437_and_utf8_names() {
    let block = cd_record(&[0x80, b'a', 0xE1], 0, (0, 0, 0), &[], &[]);
    let (e, _) = read_entry(&block, 0).unwrap();
    assert_eq!(e.filename, "\u{C7}a\u{DF}");
    let block = cd_record("\u{e9}t\u{e9}".as_bytes(), 0x0800, (0, 0, 0), &[], &[]);
    let (e, _) = read_entry(&block, 0).unwrap();
    assert_eq!(e.filename, "\u{e9}t\u{e9}");
    let block = cd_record(&[b'a', 0xFF], 0x0800, (0, 0, 0), &[], &[]);
    let (e, _) = read_entry(&block, 0).unwrap();
    assert_eq!(e.filename, "a\u{FFFD}");
}

#[test]
fn entry_new_decodes_name() {
    let e = Entry::new(vec![b'h', 0x81], false, 1, 2, 3);
    assert_eq!(e.filename, "h\u{FC}");
    assert_eq!((e.compressed_size, e.uncompressed_size, e.local_header_offset), (1, 2, 3));
}

#[test]
fn decode_records() {
    let end = eocd(3, 100, 200, b"abc");
    let e = EndOfCentralDir::decode(&end, 0).unwrap();
    assert_eq!(e.num_records, 3);
    assert_eq!(e.cd_size, 100);
    assert_eq!(e.cd_start_offset, 200);
    assert_eq!(e.comment_length, 3);
    assert!(!e.needs_zip64());
    assert_eq!(EndOfCentralDir::decode(&end[..21], 0), Err(ArchiveError::Truncated));
    assert_eq!(EndOfCentralDir64::decode(&end, 0), Err(ArchiveError::Truncated));
    let mut loc = le32(0x07064b50);
    loc.extend(le32(0));
    loc.extend(le64(123456789012));
    loc.extend(le32(1));
    let l = EndOfCentralDir64Locator::decode(&loc, 0).unwrap();
    assert_eq!(l.zip64_eocd_offset, 123456789012);
    assert_eq!(l.num_of_disks, 1);
    loc[0] = 0;
    assert_eq!(EndOfCentralDir64Locator::decode(&loc, 0), Err(ArchiveError::Corrupt));
    let rec = cd_record(b"n", 0x0800, (5, 6, 7), &[], &[]);
    let h = CentralDirEntry::decode(&rec, 0).unwrap();
    assert_eq!(h.gpb_flags, 0x0800);
    assert_eq!(h.compressed_size, 5);
    assert_eq!(h.file_name_length, 1);
}

#[test]
fn find_eocd_takes_last_consistent_record() {
    let mut w = vec![0u8; 10];
    w.extend(eocd(1, 2, 3, &[]));
    assert_eq!(ZipFile::find_eocd(&w), Some(10));
    assert_eq!(ZipFile::find_eocd(&w[..20]), None);
}

#[test]
fn locate_zip64_near_start_is_truncated() {
    let mut end = le32(0x06054b50);
    end.extend(le16(0xFFFF));
    end.extend(vec![0u8; 16]);
    let zip = ZipFile::new(22);
    assert_eq!(zip.locate(&end), Err(ArchiveError::Truncated));
}

#[test]
fn locator_past_end_is_corrupt() {
    let mut loc = le32(0x07064b50);
    loc.extend(le32(0));
    loc.extend(le64(1000));
    loc.extend(le32(1));
    let zip = ZipFile::new(500);
    assert_eq!(zip.read_locator(&loc), Err(ArchiveError::Corrupt));
    let zip = ZipFile::new(1020);
    assert_eq!(zip.read_locator(&loc), Ok(Fetch { start: 1000, len: 20 }));
}

/// Drives a session over an in-memory image, counting the fetches it asks for.
fn session_listing(image: &[u8]) -> (Result<Vec<Entry>, ArchiveError>, usize) {
    let mut session = ListingSession::new(image.len() as u64);
    let mut fetches = 0;
    loop {
        match session.step() {
            Step::Fetch(fe) => {
                fetches += 1;
                session.supply(&image[fe.start as usize..(fe.start + fe.len) as usize]);
            }
            Step::Directory(loc) => {
                fetches += 1;
                let df = ZipFile::directory_fetch(&loc);
                let block = image[df.start as usize..(df.start + df.len) as usize].to_vec();
                return (ZipFile::entry_iter(&loc, block).collect_entries(), fetches);
            }
            Step::Failed(e) => return (Err(e), fetches),
        }
    }
}

#[test]
fn session_lists_a_flat_archive_in_two_fetches() {
    let image = simple_zip(&["a.txt", "b/", "b/c.txt"], 700, &[]);
    let (r, fetches) = session_listing(&image);
    assert_eq!(names_of(&r.unwrap()), vec!["a.txt", "b/", "b/c.txt"]);
    assert_eq!(fetches, 2);
}

#[test]
fn session_reports_failures() {
    let (r, fetches) = session_listing(&[0u8; 20]);
    assert!(matches!(r, Err(ArchiveError::Truncated)));
    assert_eq!(fetches, 0);
    let (r, fetches) = session_listing(&[5u8; 300]);
    assert!(matches!(r, Err(ArchiveError::NotAZip)));
    assert_eq!(fetches, 1);
    let s = ListingSession::new(1000);
    assert_eq!(s.step(), Step::Fetch(Fetch { start: 0, len: 1000 }));
}
