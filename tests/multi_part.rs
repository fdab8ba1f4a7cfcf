use remote_archive::{Fetch, MultiFile, PartRead};

fn part(len: usize, seed: u8) -> Vec<u8> {
    (0..len).map(|i| (i as u8).wrapping_mul(31).wrapping_add(seed)).collect()
}

fn gather(parts: &[Vec<u8>], reads: &[PartRead]) -> Vec<u8> {
    let mut out = Vec::new();
    for r in reads {
        out.extend_from_slice(&parts[r.part][r.start as usize..(r.start + r.len) as usize]);
    }
    out
}

#[test]
fn multi_part_read_spans_parts() {
    let parts = vec![part(1_000_000, 1), part(500_000, 2)];
    let m = MultiFile::new(vec![1_000_000, 500_000]).unwrap();
    assert_eq!(m.size(), 1_500_000);
    let reads = m.plan(Fetch { start: 999_500, len: 1500 });
    assert_eq!(
        reads,
        vec![PartRead { part: 0, start: 999_500, len: 500 }, PartRead { part: 1, start: 0, len: 1000 }]
    );
    let mut expected = parts[0][999_500..].to_vec();
    expected.extend_from_slice(&parts[1][..1000]);
    assert_eq!(gather(&parts, &reads), expected);
}

#[test]
fn whole_stream_is_the_parts_in_order() {
    let parts = vec![part(10, 1), part(3, 2), part(7, 3)];
    let m = MultiFile::new(vec![10, 3, 7]).unwrap();
    let reads = m.plan(Fetch { start: 0, len: 20 });
    assert_eq!(reads.len(), 3);
    assert_eq!(gather(&parts, &reads), parts.concat());
}

#[test]
fn reads_are_clipped_at_the_end() {
    let m = MultiFile::new(vec![10, 5]).unwrap();
    assert_eq!(m.plan(Fetch { start: 12, len: 100 }), vec![PartRead { part: 1, start: 2, len: 3 }]);
    assert_eq!(m.plan(Fetch { start: 15, len: 4 }), vec![]);
    assert_eq!(m.plan(Fetch { start: 40, len: 4 }), vec![]);
}

#[test]
fn locate_maps_offsets_to_parts() {
    let m = MultiFile::new(vec![4, 6, 2]).unwrap();
    assert_eq!(m.part_count(), 3);
    assert_eq!(m.locate(0), Some((0, 0)));
    assert_eq!(m.locate(3), Some((0, 3)));
    assert_eq!(m.locate(4), Some((1, 0)));
    assert_eq!(m.locate(11), Some((2, 1)));
    assert_eq!(m.locate(12), None);
}

#[test]
fn invalid_layouts_are_refused() {
    assert!(MultiFile::new(vec![]).is_none());
    assert!(MultiFile::new(vec![5, 0]).is_none());
    assert!(MultiFile::new(vec![u64::MAX, 1]).is_none());
    assert!(MultiFile::new(vec![u64::MAX]).is_some());
}
