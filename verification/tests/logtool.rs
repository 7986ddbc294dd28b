//! Reading logs, counting what is in them, and the vision statistics.

use std::io::{Read, Write};

use flate2::read::MultiGzDecoder;
use flate2::write::GzEncoder;
use flate2::Compression;
use ssl_sim::double::Double;
use ssl_sim::logtool::coverage::{coverage, overlap};
use ssl_sim::logtool::frames::{
    collect_robots, slot_of, CamCounts, Gap, Shape, Sighting, NEVER,
};
use ssl_sim::logtool::inventory::{limit_reached, Capture, Inventory, Item};
use ssl_sim::logtool::noise::{
    all_areas, ball_rests, judge, NoiseWin, Sample, Slopes, Verdict, NOISE_MIN_N,
};
use ssl_sim::logtool::reader::{
    check_header, not_a_log, read_head, settle, Chunk, Decoded, Entry, Head, LogError, LogReader,
    Record,
};
use ssl_sim::logtool::select::{
    any_within, closest_within, nearest_index, nearest_within, owns_point,
};
use ssl_sim::logtool::sources::{
    first_eight, interval_counts, note_calibration, source_key, Calib, GeometryCounts,
    RefereeState, TrackerChoice, PROBED,
};
use ssl_sim::logtool::stats::{
    clamp_bin, BinnedRate, Grid, Hist, Quantiles, Rate, RESERVOIR_SEED,
};
use ssl_sim::logtool::visibility::{
    find_slot, has_radial, is_mismatch, nearest_robot_dist, same_capture, shared_robots, BallFact, Dribbler, ExtraBalls,
    Nadir, PairCounts, RegionRates, RobotFact, NADIR_BINS,
};
use ssl_sim::logtool::windows::{cam_index, Window};
use ssl_sim::table::Table;

fn d(x: f64) -> Double {
    Double::from_bits(x.to_bits())
}

fn ds(v: &[f64]) -> Vec<Double> {
    v.iter().map(|x| d(*x)).collect()
}

// --------------------------------------------------------------- reader

fn header() -> Vec<u8> {
    let mut log = b"SSL_LOG_FILE".to_vec();
    log.extend(1i32.to_be_bytes());
    log
}

fn record(log: &mut Vec<u8>, time: i64, kind: i32, payload: &[u8]) {
    log.extend(time.to_be_bytes());
    log.extend(kind.to_be_bytes());
    log.extend((payload.len() as i32).to_be_bytes());
    log.extend(payload);
}

fn sample_log() -> Vec<u8> {
    let mut log = header();
    record(&mut log, 5, 4, &[0x08, 0x01]);
    record(&mut log, 6, 3, &[]);
    record(&mut log, 7, 5, &[0x0A, 0x00]);
    record(&mut log, 8, 2, &[1, 2, 3]);
    log
}

fn gzip(bytes: &[u8]) -> Vec<u8> {
    let mut out = GzEncoder::new(Vec::new(), Compression::default());
    out.write_all(bytes).unwrap();
    out.finish().unwrap()
}

/// A record whose messages are left encoded.
type Raw = Entry<Vec<u8>, Vec<u8>, Vec<u8>>;

/// The next record; a vision message that starts with 0x10 is none.
fn next(log: &mut LogReader) -> Result<Option<Raw>, LogError> {
    log.next_entry(
        |b: &Vec<u8>| if b.first() == Some(&0x10) { None } else { Some(b.clone()) },
        |b: &Vec<u8>| Some(b.clone()),
        |b: &Vec<u8>| Some(b.clone()),
    )
}

fn read_all(mut log: LogReader) -> (Vec<Raw>, Result<(), LogError>, u64) {
    let mut entries = Vec::new();
    loop {
        match next(&mut log) {
            Ok(Some(e)) => entries.push(e),
            Ok(None) => return (entries, Ok(()), log.decode_errors()),
            Err(e) => return (entries, Err(e), log.decode_errors()),
        }
    }
}

fn expected() -> Vec<Raw> {
    vec![
        Entry { time_ns: 5, record: Record::Vision(vec![0x08, 0x01]) },
        Entry { time_ns: 6, record: Record::Referee(Vec::new()) },
        Entry { time_ns: 7, record: Record::Tracker(vec![0x0A, 0x00]) },
        Entry { time_ns: 8, record: Record::Other { kind: 2, len: 3 } },
    ]
}

#[test]
fn records_are_read_back_in_order() {
    let (entries, end, errors) = read_all(LogReader::open(Some("log"), sample_log()).unwrap());
    assert_eq!(entries, expected());
    assert_eq!((end, errors), (Ok(()), 0));
}

#[test]
fn compressed_logs_read_the_same() {
    let (entries, end, _) =
        read_all(LogReader::open(Some("gz"), gzip(&sample_log())).unwrap());
    assert_eq!(entries, expected());
    assert_eq!(end, Ok(()));
    // Two members one after the other are one stream.
    let log = sample_log();
    let mut members = gzip(&log[..20]);
    members.extend(gzip(&log[20..]));
    let (entries, _, _) = read_all(LogReader::open(Some("gz"), members).unwrap());
    assert_eq!(entries, expected());
    // Without the extension the compressed bytes are no log.
    assert!(matches!(
        LogReader::open(Some("log"), gzip(&sample_log())),
        Err(LogError::NotALog(_))
    ));
}

#[test]
fn headers_are_checked() {
    assert!(matches!(LogReader::open(None, b"SSL_LOG".to_vec()), Err(LogError::ShortHeader)));
    let mut wrong = sample_log();
    wrong[0] = b'X';
    let err = LogReader::open(None, wrong).err().unwrap();
    assert_eq!(err, LogError::NotALog(b"XSL_LOG_FILE".to_vec()));
    assert_eq!(err.message(), "not an SSL log file: header \"XSL_LOG_FILE\"");
    assert_eq!(not_a_log("?"), "not an SSL log file: header ?");
    let broken = LogError::NotALog(vec![0xFF, b'"', 0x0A]);
    assert_eq!(broken.message(), "not an SSL log file: header \"\u{FFFD}\\\"\\n\"");
    let mut newer = sample_log();
    newer[15] = 2;
    let err = LogReader::open(None, newer).err().unwrap();
    assert_eq!(err, LogError::Version(2));
    assert_eq!(err.message(), "unsupported SSL log version 2");
    assert_eq!(LogError::ShortHeader.message(), "read log header");
}

#[test]
fn cut_and_broken_records_end_the_log() {
    let log = sample_log();
    // Inside the second record's header: a truncated tail is the end.
    let (entries, end, _) =
        read_all(LogReader::open(None, log[..16 + 18 + 7].to_vec()).unwrap());
    assert_eq!((entries.len(), end), (1, Ok(())));
    // Inside a payload.
    let (entries, end, _) = read_all(LogReader::open(None, log[..16 + 17].to_vec()).unwrap());
    assert_eq!(entries.len(), 0);
    assert_eq!(end, Err(LogError::ShortPayload));
    // A negative size.
    let mut negative = header();
    negative.extend(1i64.to_be_bytes());
    negative.extend(4i32.to_be_bytes());
    negative.extend((-5i32).to_be_bytes());
    let (_, end, _) = read_all(LogReader::open(None, negative).unwrap());
    assert_eq!(end.unwrap_err().message(), "negative record size -5 at record 0");
    // A damaged gzip stream.
    let mut damaged = gzip(&sample_log());
    let last = damaged.len() - 5;
    damaged[last] ^= 0xFF;
    let (_, end, _) = match LogReader::open(Some("gz"), damaged) {
        Ok(r) => read_all(r),
        Err(e) => (Vec::new(), Err(e), 0),
    };
    assert_eq!(end, Err(LogError::Corrupt));
    assert_eq!(LogError::Corrupt.message(), "corrupt gzip stream");
    // Corrupt inside the header, and where a record should start.
    let err = check_header(&Chunk::Fault).unwrap_err();
    assert_eq!((err.message().as_str(), err), ("read log header", LogError::CorruptHeader));
    assert_eq!(check_header(&Chunk::End), Err(LogError::ShortHeader));
    assert_eq!(check_header(&Chunk::Bytes(header())), Ok(()));
    assert_eq!(read_head(&Chunk::Fault, 3), Err(LogError::Corrupt));
    assert_eq!(read_head(&Chunk::End, 3), Ok(None));
    let head = Head { time_ns: 5, kind: 4, size: 2 };
    assert_eq!(read_head(&Chunk::Bytes(log[16..32].to_vec()), 0), Ok(Some(head)));
    assert_eq!(LogError::CorruptPayload.message(), "read record payload");
}

#[test]
fn records_before_a_corrupt_place_are_read() {
    let mut log = header();
    for i in 0..3000 {
        record(&mut log, i, 2, &[7; 20]);
    }
    // The log in stored blocks, and then a block of a type that there is not.
    let mut damaged = vec![0x1F, 0x8B, 8, 0, 0, 0, 0, 0, 0, 0xFF];
    for part in log.chunks(30_000) {
        let n = part.len() as u16;
        damaged.push(0);
        damaged.extend(n.to_le_bytes());
        damaged.extend((!n).to_le_bytes());
        damaged.extend(part);
    }
    damaged.push(7);
    // As many as a decoder gives that is asked for the same bytes.
    let mut decoder = MultiGzDecoder::new(&damaged[..]);
    let mut read = |n: usize| decoder.read_exact(&mut vec![0; n]).is_ok();
    assert!(read(16));
    let mut whole = 0;
    while read(16) && read(20) {
        whole += 1;
    }
    assert!(whole > 1000 && whole < 3000, "{whole}");
    let (entries, end, _) = read_all(LogReader::open(Some("gz"), damaged).unwrap());
    assert_eq!(entries.len(), whole);
    assert!(entries.iter().zip(0..).all(|(e, i)| e.time_ns == i));
    assert!(matches!(end, Err(LogError::Corrupt) | Err(LogError::CorruptPayload)));
}

#[test]
fn what_a_cut_file_holds_is_read() {
    let whole = gzip(&sample_log());
    // Without the checksum behind the data.
    let (entries, end, _) =
        read_all(LogReader::open(Some("gz"), whole[..whole.len() - 8].to_vec()).unwrap());
    assert_eq!((entries, end), (expected(), Ok(())));
    // A second member of which only the start is there.
    let log = sample_log();
    let mut members = gzip(&log[..16 + 18]);
    members.extend(&gzip(&log[16 + 18..])[..5]);
    let (entries, end, _) = read_all(LogReader::open(Some("gz"), members).unwrap());
    assert_eq!((entries, end), (expected()[..1].to_vec(), Ok(())));
}

#[test]
fn unreadable_messages_are_counted_and_kept_as_other() {
    let mut log = header();
    record(&mut log, 1, 4, &[0xFF, 0xFF]);
    record(&mut log, 2, 4, &[0x08, 0x01]);
    record(&mut log, 3, 4, &[0x10, 0x01]);
    let mut reader = LogReader::open(None, log).unwrap();
    let first = next(&mut reader).unwrap().unwrap();
    assert_eq!(first.record, Record::Other { kind: 4, len: 2 });
    assert_eq!((reader.decode_errors(), reader.count()), (1, 1));
    let second = next(&mut reader).unwrap().unwrap();
    assert_eq!(second.record, Record::Vision(vec![0x08, 0x01]));
    assert_eq!((reader.decode_errors(), reader.count()), (1, 2));
    // Readable, but no such message.
    let third = next(&mut reader).unwrap().unwrap();
    assert_eq!(third.record, Record::Other { kind: 4, len: 2 });
    assert_eq!((reader.decode_errors(), reader.count()), (2, 3));
    assert_eq!(next(&mut reader), Ok(None));
    assert_eq!(next(&mut reader), Ok(None));
}

#[test]
fn what_was_decoded_decides_on_the_record() {
    let other = Record::Other { kind: 3, len: 7 };
    let none: Decoded<u8, u8, u8> = Decoded::Referee(None);
    assert_eq!(settle(none, 3, 7), (other, true));
    let some: Decoded<u8, u8, u8> = Decoded::Referee(Some(9));
    assert_eq!(settle(some, 3, 7), (Record::Referee(9), false));
    let raw: Decoded<u8, u8, u8> = Decoded::Raw;
    assert_eq!(settle(raw, 2, 7), (Record::Other { kind: 2, len: 7 }, false));
}

// ------------------------------------------------------------ inventory

#[test]
fn inventory_counts_kinds_cameras_and_commands() {
    let mut inv = Inventory::new();
    let seen = |camera_id: u32, t: f64| Item::Vision {
        detection: Some(Capture { camera_id, t_capture: d(t) }),
        geometry: false,
    };
    inv.add_record(100, seen(1, 1.0));
    inv.add_record(90, seen(1, 3.0));
    inv.add_record(300, Item::Vision { detection: None, geometry: true });
    inv.add_record(200, Item::Referee(-2));
    inv.add_record(200, Item::Referee(3));
    inv.add_record(200, Item::Tracker);
    inv.add_record(200, Item::Other);
    assert_eq!(
        (inv.kinds.vision, inv.kinds.referee, inv.kinds.tracker, inv.kinds.other),
        (3, 2, 1, 1)
    );
    assert_eq!((inv.geometry, inv.records, inv.times), (1, 7, Some((100, 200))));
    assert_eq!(inv.span_ns(), 100);
    let camera = inv.cameras.get(1).unwrap();
    assert_eq!((camera.frames, camera.first, camera.last), (2, d(1.0), d(3.0)));
    assert_eq!(inv.commands.len(), 2);
    // Commands are listed in numeric order.
    assert_eq!((*inv.commands.at(0).1, *inv.commands.at(1).1), (1, 1));
    assert!(inv.commands.at(0).0 < inv.commands.at(1).0);
    assert!(limit_reached(5, 5) && !limit_reached(4, 5) && !limit_reached(4, 0));
}

// ---------------------------------------------------------------- stats

#[test]
fn rates_count_hits_among_trials() {
    let mut r = Rate::none();
    for hit in [true, false, true] {
        r.push(hit);
    }
    let mut other = Rate::none();
    other.push(false);
    r.merge(&other);
    assert_eq!((r.hits, r.trials), (2, 4));
}

#[test]
fn reservoirs_keep_everything_while_there_is_room() {
    let mut q = Quantiles::new(4);
    for x in [3.0, 1.0, 2.0] {
        q.push(d(x), d(x));
    }
    assert_eq!((q.seen(), q.sorted().clone()), (3, ds(&[1.0, 2.0, 3.0])));
    for x in 0..100 {
        q.push(d(x as f64), d(x as f64));
    }
    assert_eq!((q.seen(), q.sorted().len()), (103, 4));
    let mut more = Quantiles::new(2);
    more.push(d(7.0), d(7.0));
    q.merge(&more);
    assert_eq!((q.seen(), q.sorted().len()), (104, 4));
    // Not a number is not kept.
    let mut none = Quantiles::new(2);
    none.push(d(f64::NAN), d(0.0));
    assert_eq!((none.seen(), none.sorted().len()), (0, 0));
}

#[test]
fn sorting_a_reservoir_decides_what_is_replaced() {
    let mut q = Quantiles::new(4);
    for x in [3.0, 1.0, 4.0, 2.0] {
        q.push(d(x), d(x));
    }
    assert_eq!(*q.sorted(), ds(&[1.0, 2.0, 3.0, 4.0]));
    let mut held = vec![1.0, 2.0, 3.0, 4.0];
    let mut rng = RESERVOIR_SEED;
    for seen in 5..=20u64 {
        rng ^= rng << 13;
        rng ^= rng >> 7;
        rng ^= rng << 17;
        let x = 10.0 * seen as f64;
        if rng % seen < 4 {
            held[(rng % seen) as usize] = x;
        }
        q.push(d(x), d(x));
    }
    held.sort_by(|a, b| a.partial_cmp(b).unwrap());
    assert_eq!(*q.sorted(), ds(&held));
}

#[test]
fn slow_and_low_balls_rest() {
    assert!(ball_rests(d(0.029), d(0.019)));
    assert!(!ball_rests(d(0.03), d(0.0)) && !ball_rests(d(0.0), d(0.02)));
    assert!(!ball_rests(d(f64::NAN), d(0.0)));
    assert!(is_mismatch(d(0.16)) && !is_mismatch(d(0.15)) && !is_mismatch(d(f64::NAN)));
    assert!(has_radial(d(0.21)) && !has_radial(d(0.2)));
}

#[test]
fn histograms_count_what_falls_outside_too() {
    let mut h = Hist::new(3);
    for bin in [-1, 0, 2, 2, 3] {
        h.push(bin);
    }
    assert_eq!((h.bins.clone(), h.under, h.over), (vec![1, 0, 2], 1, 1));
    let copy = h.clone();
    h.merge(&copy);
    assert_eq!((h.bins, h.under, h.over), (vec![2, 0, 4], 2, 2));
    assert_eq!((clamp_bin(-4, 3), clamp_bin(1, 3), clamp_bin(9, 3)), (0, 1, 2));
    let mut b = BinnedRate::new(2);
    b.push(-3, true);
    b.push(7, false);
    let copy = b.clone();
    b.merge(&copy);
    assert_eq!((b.bins[0].hits, b.bins[0].trials, b.bins[1].trials), (2, 2, 2));
}

#[test]
fn grids_ignore_what_lies_outside() {
    let mut g = Grid::new(2, 3);
    for (x, y) in [(0, 0), (1, 2), (1, 2), (2, 0), (-1, 0)] {
        g.push(x, y);
    }
    assert_eq!(g.cells, vec![1, 0, 0, 0, 0, 2]);
    assert_eq!(g.hit_counts(), vec![1, 2]);
    assert_eq!(g.mask(2), vec![false, false, false, false, false, true]);
}

#[test]
fn coverage_is_a_bounding_box_and_overlap_counts_masks() {
    let left = vec![true, true, false, false, true, false];
    let right = vec![false, true, true, false, true, false];
    let c = coverage(&left, 3).unwrap();
    assert_eq!((c.cells, c.min_x, c.max_x, c.min_y, c.max_y), (3, 0, 1, 0, 1));
    assert!(coverage(&vec![false, false], 2).is_none());
    let o = overlap(&vec![left, right], 3, 2);
    assert_eq!((o.covered, o.multi), (4, 2));
    assert_eq!(o.rows.iter().sum::<u64>(), o.multi);
}

// --------------------------------------------------------------- select

#[test]
fn the_first_of_the_least_is_chosen() {
    let distances = ds(&[2.0, 1.0, 1.0, 3.0]);
    assert_eq!(nearest_index(&distances), Some(1));
    assert_eq!(nearest_index(&Vec::new()), None);
    assert_eq!(nearest_within(&distances, d(1.0)), None);
    assert_eq!(nearest_within(&distances, d(1.5)), Some(1));
    assert_eq!(closest_within(&distances, d(2.5)), Some(1));
    assert!(any_within(&distances, d(1.5)) && !any_within(&distances, d(0.5)));
}

#[test]
fn a_point_belongs_to_the_nearest_camera() {
    let seen = vec![Some(d(2.0)), Some(d(1.0)), Some(d(1.0))];
    assert_eq!(owns_point(&seen, 0), Some(false));
    assert_eq!(owns_point(&seen, 1), Some(true));
    assert_eq!(owns_point(&seen, 2), Some(true));
    assert_eq!(owns_point(&vec![Some(d(2.0)), None], 0), None);
}

// -------------------------------------------------------------- windows

#[test]
fn frames_wait_for_their_successor() {
    let mut w: Window<&str> = Window::new();
    w.push(d(1.0), "a");
    w.push(d(2.0), "b");
    w.push(d(3.0), "c");
    let order: Vec<&str> = (0..w.len()).map(|i| w.at(i).frame).collect();
    assert_eq!(order, vec!["a", "b", "c"]);
    assert_eq!(w.ready(d(1.5), false), (0, 1));
    assert_eq!(w.advance(d(1.5), d(0.0), false), 0);
    assert_eq!(w.ready(d(2.0), false), (1, 1));
    // Everything but the last frame is processed on a flush.
    assert_eq!(w.ready(d(0.0), true), (1, 1));
    let dropped = w.advance(d(0.0), d(0.0), true);
    assert_eq!((dropped, w.at(0).frame), (1, "b"));
    let mut ids = vec![4, 2];
    assert_eq!(cam_index(&mut ids, 2), 1);
    assert_eq!(cam_index(&mut ids, 9), 2);
    assert_eq!(ids, vec![4, 2, 9]);
}

// --------------------------------------------------------------- frames

#[test]
fn robots_are_collected_by_slot() {
    assert_eq!(slot_of(true, 3), Some(3));
    assert_eq!(slot_of(false, 3), Some(19));
    assert_eq!(slot_of(true, 16), None);
    let at = |blue: bool, id: Option<u32>| Sighting { blue, id };
    let robots = collect_robots(&vec![
        at(true, Some(3)),
        at(false, Some(0)),
        at(true, None),
        at(true, Some(3)),
        at(true, Some(40)),
    ]);
    assert_eq!(robots.slots, vec![3, 16, 3]);
    assert_eq!(robots.kept, vec![0, 1, 3]);
    assert_eq!((robots.mask, robots.dupes), ((1 << 3) | (1 << 16), 1));
}

fn shape(frame_number: u32, slots: Vec<u32>, balls: u32) -> Shape {
    let mask = slots.iter().fold(0, |m, s| m | (1 << s));
    Shape {
        frame_number,
        slots,
        mask,
        balls,
        balls_with_z: 0,
        balls_with_area: balls,
        ref_static: false,
    }
}

#[test]
fn single_frame_misses_are_dropouts() {
    let mut c = CamCounts::new();
    assert!(c.can_count());
    let full = Hist { bins: vec![u64::MAX; 12], under: 1, over: 0 };
    assert!(full.is_below(7) == false && c.fn_step.is_below(1) && !c.fn_step.is_below(0));
    assert!(!CamCounts { fn_step: full, ..CamCounts::new() }.can_count());
    assert_eq!((c.static_frames, c.gap_neg, c.gap_zero, c.gap_long), (0, 0, 0, 0));
    assert_eq!((c.empty_frames, c.ball_z_reported, c.robot_dupes), (0, 0, 0));
    assert_eq!((c.ball_area_present, c.ball_area_missing), (0, 0));
    assert_eq!(c.fn_step, Hist { bins: vec![0; 12], under: 0, over: 0 });
    assert_eq!(c.ball_gap, Hist { bins: vec![0; 60], under: 0, over: 0 });
    let full = shape(1, vec![3, 17], 1);
    let part = shape(2, vec![17], 0);
    let after = shape(3, vec![3, 17], 1);
    let gap = || Gap { gap: d(0.016), long: d(0.032), clean: d(0.024) };
    let clean = c.process_frame(None, &full, &part);
    assert!(!clean);
    assert!(c.process_frame(Some((&full, gap())), &part, &after));
    assert!(c.process_frame(Some((&part, gap())), &after, &full));
    assert_eq!((c.frames, c.robot_dets, c.ball_dets), (3, 5, 2));
    assert_eq!((c.robot_single_drop.hits, c.robot_single_drop.trials), (1, 3));
    assert_eq!((c.ball_single_drop.hits, c.ball_single_drop.trials), (1, 1));
    // Robot 3 was missing for one frame.
    assert_eq!(c.robot_gap.bins[0], 1);
    assert_eq!(c.ball_gap.bins[0], 1);
    assert_eq!(c.last_seen[3], 2);
    assert_eq!(c.last_seen[4], NEVER);
    assert_eq!((c.gap_neg, c.gap_zero, c.gap_long), (0, 0, 0));
    // A long gap is not a clean one.
    assert!(!c.process_frame(
        Some((&after, Gap { gap: d(1.0), long: d(0.032), clean: d(0.024) })),
        &full,
        &part
    ));
    assert_eq!((c.gap_long, c.robot_single_drop.trials), (1, 4));
    let copy = c.clone();
    let all = CamCounts::total(&vec![copy.clone(), CamCounts::new(), copy.clone()]);
    assert_eq!((all.frames, all.robot_dets), (2 * copy.frames, 2 * copy.robot_dets));
    assert_eq!(all.robot_single_drop.hits, 2 * copy.robot_single_drop.hits);
    let twice: Vec<u64> = copy.ball_gap.bins.iter().map(|n| 2 * n).collect();
    assert_eq!((all.ball_gap.bins, all.last_seen), (twice, CamCounts::new().last_seen));
    let mut sum = CamCounts::new();
    sum.merge(&copy);
    assert_eq!((sum.frames, sum.robot_single_drop.trials), (4, 4));
}

// ----------------------------------------------------------- visibility

fn ball() -> BallFact {
    BallFact {
        height: d(0.0),
        speed: d(0.1),
        speed_bin: 1,
        owns: Some(true),
        nadir: Some(Nadir { dist: d(1.0), bin: 2 }),
        balls: ds(&[0.0001]),
        robots: Vec::new(),
        nearest: d(5.0),
        nearest_bin: 9,
        dribblers: Vec::new(),
    }
}

#[test]
fn balls_count_where_the_camera_owns_the_point() {
    let mut r = RegionRates::new();
    r.record_ball(&ball(), 0);
    assert_eq!((r.ball_seen_in_region.hits, r.ball_seen_in_region.trials), (1, 1));
    r.record_ball(&BallFact { balls: Vec::new(), ..ball() }, 0);
    assert_eq!((r.ball_seen_in_region.hits, r.ball_seen_in_region.trials), (1, 2));
    r.record_ball(&BallFact { owns: Some(false), ..ball() }, 0);
    r.record_ball(&BallFact { height: d(1.0), ..ball() }, 0);
    assert_eq!(r.ball_seen_in_region.trials, 2);
    assert_eq!(r.ball_seen_vs_nadir.bins.len(), NADIR_BINS);
    assert_eq!(r.ball_seen_vs_nadir.bins[2].trials, 2);
    let copy = r.clone();
    r.merge(&copy);
    assert_eq!(r.ball_seen_in_region.trials, 4);
}

#[test]
fn drops_need_a_ball_before_and_after() {
    let mut r = RegionRates::new();
    r.record_drop(1, 0, 1, 3);
    r.record_drop(1, 2, 1, 3);
    r.record_drop(0, 0, 1, 3);
    r.record_drop(1, 0, 1, 99);
    let bins = &r.ball_drop_vs_robot_dist.bins;
    assert_eq!((bins[3].hits, bins[3].trials), (1, 2));
    assert_eq!((bins[23].hits, bins[23].trials), (1, 1));
}

#[test]
fn dribbled_balls_are_counted_apart() {
    let mut r = RegionRates::new();
    let held = BallFact {
        dribblers: vec![Dribbler { slot: 3, dist: d(0.1), ahead: true }],
        nearest: d(0.1),
        nearest_bin: 0,
        ..ball()
    };
    r.record_ball(&held, 1 << 3);
    assert_eq!((r.dribbled_ball_seen.trials, r.free_ball_seen.trials), (1, 0));
    r.record_ball(&ball(), 0);
    assert_eq!((r.dribbled_ball_seen.trials, r.free_ball_seen.trials), (1, 1));
}

#[test]
fn robots_count_where_the_camera_owns_the_point() {
    let mut r = RegionRates::new();
    let fact = |slot: u32, owns: Option<bool>| RobotFact {
        slot,
        owns,
        nadir: Some(Nadir { dist: d(1.0), bin: 0 }),
    };
    r.record_robots(&vec![fact(3, Some(true)), fact(4, Some(true)), fact(5, None)], 1 << 3);
    assert_eq!((r.robot_seen_in_region.hits, r.robot_seen_in_region.trials), (1, 2));
    assert_eq!(r.robot_seen_core.trials, 2);
}

#[test]
fn extra_balls_are_those_beside_the_tracked_one() {
    let mut e = ExtraBalls::new();
    let near = ds(&[0.1, 4.0]);
    let far = ds(&[4.0, 4.0]);
    let one = vec![near.clone()];
    assert!(e.record(&one, Some(0)).is_empty());
    assert_eq!(e.frames_multi_ball, 0);
    let three = vec![far.clone(), near, far];
    let extras = e.record(&three, Some(0));
    assert_eq!(extras.iter().map(|x| x.ball).collect::<Vec<usize>>(), vec![1, 2]);
    assert_eq!(extras[0].robot, Some(0));
    assert_eq!(extras[1].robot, None);
    assert!(e.record(&three, None).is_empty());
    assert_eq!(
        (e.frames_multi_ball, e.multi_ball_unattributed, e.extra_balls, e.extra_near_robot),
        (2, 1, 2, 1)
    );
    let mut sum = ExtraBalls::new();
    sum.merge(&e);
    assert_eq!(sum.extra_balls, 2);
}

#[test]
fn cameras_are_compared_on_the_robots_they_share() {
    assert_eq!(find_slot(&vec![7, 3, 9], 3), Some(1));
    assert_eq!(find_slot(&vec![7], 3), None);
    let shared = shared_robots(&vec![7, 3], &vec![3, 5]);
    assert_eq!((shared.len(), shared[0].mine, shared[0].theirs), (1, 1, 0));
    let mut p = PairCounts::new();
    assert!(p.record(d(0.01), d(0.01)));
    assert!(!p.record(d(1.0), d(0.01)));
    p.record(d(0.01), d(2.0));
    assert_eq!((p.outliers, p.gross_phi), (1, 1));
    assert!(same_capture(d(0.001), d(0.002)) && !same_capture(d(0.003), d(0.002)));
    assert_eq!(nearest_robot_dist(&ds(&[3.0, 2.0, 5.0])), d(2.0));
}

// ---------------------------------------------------------------- noise

fn sample(t: f64, a: Option<f64>) -> Sample {
    Sample { t: d(t), x: d(0.0), y: d(0.0), p: d(0.0), a: a.map(d) }
}

#[test]
fn noise_windows_end_at_gaps_and_when_full() {
    let mut w = NoiseWin::new();
    assert!(w.begin_robot(d(9.0), d(9.0)).is_none(), "nothing to end");
    w.push(sample(0.0, None), true, d(1.0));
    assert!(w.begin_robot(d(0.01), d(0.01)).is_none());
    w.push(sample(0.01, None), false, d(2.0));
    let ended = w.begin_robot(d(0.01), d(1.0)).unwrap();
    assert_eq!((ended.samples.len(), ended.all_static), (2, false));
    assert!(w.samples.is_empty());
    // A gap drops what was collected.
    w.push(sample(0.0, None), true, d(1.0));
    assert!(w.begin_robot(d(0.5), d(0.5)).is_none());
    assert!(w.samples.is_empty());
    // A ball's window ends when the ball moves.
    w.push(sample(0.0, None), true, d(1.0));
    assert_eq!(w.begin_ball(false, d(0.01), d(0.01)).unwrap().samples.len(), 1);
    assert!(w.samples.is_empty());
    assert!(w.begin_ball(false, d(0.01), d(0.01)).is_none());
    w.push(sample(0.0, None), true, d(1.0));
    let ended = w.begin_ball(true, d(0.01), d(1.5)).unwrap();
    assert_eq!((ended.samples.len(), ended.all_static), (1, true));
}

#[test]
fn windows_are_judged_by_length_and_drift() {
    let still = || Some(Slopes { x: d(0.0), y: d(0.0) });
    assert_eq!(judge(NOISE_MIN_N - 1, d(0.0), still(), true), Verdict::Rejected);
    assert_eq!(judge(NOISE_MIN_N, d(0.0), None, true), Verdict::Rejected);
    assert_eq!(judge(NOISE_MIN_N, d(0.0), still(), true), Verdict::Static);
    assert_eq!(judge(NOISE_MIN_N, d(0.0), still(), false), Verdict::Slow);
    assert_eq!(judge(NOISE_MIN_N, d(1.0), still(), true), Verdict::Rejected);
    let drift = Some(Slopes { x: d(1.0), y: d(0.0) });
    assert_eq!(judge(NOISE_MIN_N, d(0.0), drift, true), Verdict::Rejected);
    assert_eq!(all_areas(&vec![sample(0.0, Some(1.0)), sample(1.0, None)]), None);
    assert_eq!(
        all_areas(&vec![sample(0.0, Some(1.0)), sample(1.0, Some(2.0))]),
        Some(ds(&[1.0, 2.0]))
    );
}

// -------------------------------------------------------------- sources

#[test]
fn trackers_are_named_and_chosen() {
    assert_eq!(first_eight("0123456789"), Some("01234567".to_string()));
    assert_eq!(first_eight("0123"), Some("0123".to_string()));
    assert_eq!(first_eight("0123456ä"), None);
    assert_eq!(source_key(None, "01234567"), "? [01234567]");
    assert_eq!(source_key(Some("TIGERs"), "01234567"), "TIGERs [01234567]");
    let mut c = TrackerChoice::new();
    let mut taken = 0;
    for _ in 0..PROBED {
        taken += c.observe("off", false, true) as u64;
        taken += c.observe("on", true, false) as u64;
    }
    assert!(c.decided);
    assert_eq!(c.primary.as_deref(), Some("on"));
    assert!(taken > 0);
    assert!(c.observe("on", true, false));
    assert!(!c.observe("off", true, false));
    assert_eq!(c.sources.get("off"), Some(PROBED + 1));
}

#[test]
fn referee_commands_switch_only_when_they_change() {
    let mut r = RefereeState::new();
    r.observe(0, d(1.0));
    let switches = r.switches;
    r.observe(0, d(2.0));
    assert_eq!(r.switches, switches);
    r.observe(12, d(3.0));
    assert_eq!((r.switches, r.command, r.since), (switches + 1, 12, d(3.0)));
    assert!(r.is_static(d(2.5)), "stopped for long enough");
    assert!(!r.is_static(d(0.5)));
    r.observe(3, d(4.0));
    assert!(!r.is_static(d(9.0)), "play goes on");
    assert!(interval_counts(d(1.0), d(2.0)));
    assert!(!interval_counts(d(1.0), d(100.0)));
}

fn calib(id: u32, tx: f64) -> Calib {
    Calib {
        id,
        focal: d(1.0),
        ppx: d(0.0),
        ppy: d(0.0),
        distortion: d(0.0),
        q0: d(0.0),
        q1: d(0.0),
        q2: d(0.0),
        q3: d(1.0),
        tx: d(tx),
        ty: d(0.0),
        tz: d(0.0),
        world: None,
        width: 0,
        height: 0,
    }
}

#[test]
fn repeated_calibrations_are_no_change() {
    let mut table = Table::new();
    assert!(!note_calibration(&mut table, calib(1, 0.0)), "the first one");
    assert!(!note_calibration(&mut table, calib(1, 0.0)));
    assert!(note_calibration(&mut table, calib(1, 5.0)));
    let mut g = GeometryCounts::new();
    g.observe(&mut table, &vec![calib(1, 5.0), calib(2, 0.0)]);
    g.observe(&mut table, &vec![calib(1, 6.0)]);
    assert_eq!((g.packets, g.changes), (2, 1));
    assert_eq!((g.calibs_per_packet.bins[1], g.calibs_per_packet.bins[2]), (1, 1));
    let mut sum = GeometryCounts::new();
    sum.merge(&g);
    assert_eq!(sum.packets, 2);
}
