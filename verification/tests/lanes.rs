use subtake::lanes::{pack, LaneItem};

fn item(row: i32, start: i64, end: i64) -> LaneItem {
    LaneItem { row, start, end }
}

/// The timeline's own packing, on times, for comparison: the lanes as the
/// editor's refresh lays them out.
fn reference(regions: &[(i32, f32, f32)]) -> (Vec<i32>, Vec<usize>) {
    let mut rows: Vec<i32> = regions.iter().map(|r| r.0).collect();
    let base_rows = rows.clone();
    let mut counts = vec![];
    let mut labels = 0usize;
    for base in 0..5 {
        let mut indices: Vec<usize> = (0..regions.len()).filter(|i| base_rows[*i] == base).collect();
        indices.sort_by(|a, b| regions[*a].1.total_cmp(&regions[*b].1));
        let mut ends = vec![f32::NEG_INFINITY];
        for index in indices {
            let lane = if base == 2 || base == 4 {
                ends.iter().position(|end| *end <= regions[index].1).unwrap_or(ends.len())
            } else {
                0
            };
            if lane == ends.len() {
                ends.push(f32::NEG_INFINITY);
            }
            ends[lane] = regions[index].2;
            rows[index] = (labels + lane) as i32;
        }
        labels += ends.len();
        counts.push(ends.len());
    }
    (rows, counts)
}

fn key(x: f32) -> i64 {
    let bits = x.to_bits() as i32;
    (if bits < 0 { bits ^ i32::MAX } else { bits }) as i64
}

fn packed(regions: &[(i32, f32, f32)]) -> (Vec<i32>, Vec<usize>) {
    let items: Vec<LaneItem> = regions.iter().map(|r| item(r.0, key(r.1), key(r.2))).collect();
    let layout = pack(&items);
    (layout.rows, layout.counts)
}

#[test]
fn overlapping_annotations_take_separate_lanes() {
    let regions = [
        (0, 4., 12.5),
        (2, 14., 22.),
        (2, 16., 20.),
        (2, 21., 30.),
        (2, 22., 25.),
        (3, 1., 5.5),
        (4, 0., 148.),
    ];
    let (rows, counts) = packed(&regions);
    assert_eq!(counts, vec![1, 1, 2, 1, 1]);
    // Zoom lane 0, clip lane 1, annotations from 2, caption 4, audio 5.
    assert_eq!(rows, vec![0, 2, 3, 3, 2, 4, 5]);
    assert_eq!((rows, counts), reference(&regions));
}

#[test]
fn a_region_ending_where_another_starts_shares_its_lane() {
    let regions = [(4, 0., 10.), (4, 10., 20.), (4, 5., 15.)];
    let (rows, counts) = packed(&regions);
    assert_eq!(counts, vec![1, 1, 1, 1, 2]);
    assert_eq!(rows, vec![4, 4, 5]);
}

#[test]
fn unpacked_rows_keep_one_lane_and_unknown_rows_stay() {
    let regions = [(1, 0., 10.), (1, 5., 15.), (7, 0., 1.), (0, 3., 4.), (0, 3., 8.)];
    let (rows, counts) = packed(&regions);
    assert_eq!(counts, vec![1, 1, 1, 1, 1]);
    assert_eq!(rows, vec![1, 1, 7, 0, 0]);
    assert_eq!((rows, counts), reference(&regions));
}

#[test]
fn packing_matches_the_timeline_on_a_busy_project() {
    let mut regions = vec![];
    let mut seed = 0x9e37_79b9u32;
    for _ in 0..200 {
        seed ^= seed << 13;
        seed ^= seed >> 17;
        seed ^= seed << 5;
        let row = (seed % 6) as i32;
        let start = (seed % 1000) as f32 / 7.;
        let length = ((seed >> 10) % 300) as f32 / 11.;
        regions.push((row, start, start + length));
    }
    assert_eq!(packed(&regions), reference(&regions));
}

#[test]
fn empty_timeline_has_one_lane_a_row() {
    let layout = pack(&vec![]);
    assert!(layout.rows.is_empty());
    assert_eq!(layout.counts, vec![1, 1, 1, 1, 1]);
}
