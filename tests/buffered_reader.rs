use std::io::{Cursor, Read, Seek, SeekFrom};

use exact_reader::{ExactReader, File};
use remote_archive::{list_entries, Fetch, Located, ZipFile};

fn source(len: usize) -> Vec<u8> {
    (0..len).map(|i| (i % 251) as u8).collect()
}

fn fetch(reader: &mut ExactReader<File<Cursor<Vec<u8>>>>, fe: Fetch) -> Vec<u8> {
    reader.seek(SeekFrom::Start(fe.start)).unwrap();
    reader.reserve(fe.len as usize);
    let mut buf = vec![0u8; fe.len as usize];
    reader.read_exact(&mut buf).unwrap();
    buf
}

#[test]
fn reserved_reads_return_the_source_bytes() {
    let data = source(200_000);
    let file = File { file: Cursor::new(data.clone()), size: data.len(), filename: String::new() };
    let mut reader = ExactReader::new_single(file);
    for fe in [
        Fetch { start: 200_000 - 65_557, len: 65_557 },
        Fetch { start: 200_000 - 42, len: 20 },
        Fetch { start: 10_000, len: 56 },
        Fetch { start: 3_000, len: 7_000 },
    ] {
        let got = fetch(&mut reader, fe);
        assert_eq!(got, data[fe.start as usize..(fe.start + fe.len) as usize].to_vec());
    }
}

#[test]
fn listing_through_the_buffered_reader() {
    let mut image = vec![0u8; 100];
    let mut cd = Vec::new();
    for name in ["a.txt", "b/", "b/c.txt"] {
        cd.extend(0x02014b50u32.to_le_bytes());
        cd.extend([0u8; 24]);
        cd.extend((name.len() as u16).to_le_bytes());
        cd.extend([0u8; 16]);
        cd.extend(name.as_bytes());
    }
    let cd_len = cd.len() as u32;
    image.extend(cd);
    image.extend(0x06054b50u32.to_le_bytes());
    image.extend([0u8; 4]);
    image.extend(3u16.to_le_bytes());
    image.extend(3u16.to_le_bytes());
    image.extend(cd_len.to_le_bytes());
    image.extend(100u32.to_le_bytes());
    image.extend(0u16.to_le_bytes());
    let file = File { file: Cursor::new(image.clone()), size: image.len(), filename: String::new() };
    let mut reader = ExactReader::new_single(file);
    let zip = ZipFile::new(image.len() as u64);
    let window = fetch(&mut reader, zip.tail_fetch().unwrap());
    let loc = match zip.locate(&window).unwrap() {
        Located::Classic(loc) => loc,
        Located::Zip64(_) => panic!("not a ZIP64 archive"),
    };
    let block = fetch(&mut reader, ZipFile::directory_fetch(&loc));
    let mut it = ZipFile::entry_iter(&loc, block);
    let names: Vec<String> = it.collect_entries().unwrap().into_iter().map(|e| e.filename).collect();
    assert_eq!(names, vec!["a.txt", "b/", "b/c.txt"]);
    let direct: Vec<String> = list_entries(&image).unwrap().into_iter().map(|e| e.filename).collect();
    assert_eq!(names, direct);
}

/// A source that counts the reads made on it.
struct Counting {
    inner: Cursor<Vec<u8>>,
    reads: std::rc::Rc<std::cell::Cell<usize>>,
}

impl Read for Counting {
    fn read(&mut self, buf: &mut [u8]) -> std::io::Result<usize> {
        self.reads.set(self.reads.get() + 1);
        self.inner.read(buf)
    }
}

impl Seek for Counting {
    fn seek(&mut self, pos: SeekFrom) -> std::io::Result<u64> {
        self.inner.seek(pos)
    }
}

#[test]
fn reads_after_a_reservation_touch_no_source() {
    let data = source(5_000);
    let reads = std::rc::Rc::new(std::cell::Cell::new(0));
    let counting = Counting { inner: Cursor::new(data.clone()), reads: reads.clone() };
    let mut reader = ExactReader::new_single(File { file: counting, size: data.len(), filename: String::new() });
    reader.seek(SeekFrom::Start(1_000)).unwrap();
    reader.reserve(46);
    let after_reserve = reads.get();
    let mut out = Vec::new();
    for size in [4usize, 2, 2, 8, 30] {
        let mut buf = vec![0u8; size];
        reader.read_exact(&mut buf).unwrap();
        out.extend(buf);
    }
    assert_eq!(reads.get(), after_reserve);
    assert_eq!(out, data[1_000..1_046].to_vec());
}
