use aseprite_dmi::clipboard::ClipboardState;
use aseprite_dmi::codec::{DmiError, SerializedState};
use aseprite_dmi::geometry::ResizeFilter;
use aseprite_dmi::model::{Dmi, State, ONE_TICK};
use aseprite_dmi::overlay::overlay_color;
use aseprite_dmi::raster::{Frame, Pixel};
use aseprite_dmi::workspace::{frame_file_path, must_write, removal, Removal};

/// A frame whose pixel at `(x, y)` is `[x, y, seed, 255]`.
fn pattern(width: u32, height: u32, seed: u8) -> Frame {
    let rows = (0..height)
        .map(|y| (0..width).map(|x| [x as u8, y as u8, seed, 255]).collect())
        .collect();
    Frame { width, height, rows }
}

fn solid(width: u32, height: u32, p: Pixel) -> Frame {
    Frame { width, height, rows: vec![vec![p; width as usize]; height as usize] }
}

fn state(name: &str, dirs: u32, frame_count: u32, width: u32, height: u32) -> State {
    let n = dirs * frame_count;
    State {
        name: name.to_string(),
        dirs,
        frame_count,
        frames: (0..n).map(|k| pattern(width, height, k as u8)).collect(),
        delays: (0..frame_count).map(|k| (k + 1) as f32).map(f32::to_bits).collect(),
        loop_: 3,
        rewind: true,
        movement: dirs == 4,
        hotspots: (0..n).map(|k| format!("{},{},{}", k, k + 1, 0)).collect(),
    }
}

fn sheet(width: u32, height: u32, states: Vec<State>) -> Dmi {
    let mut dmi = Dmi::new("sheet".to_string(), width, height);
    dmi.states = states;
    dmi
}

fn transparent() -> Pixel {
    [0, 0, 0, 0]
}

#[test]
fn new_sheet_is_empty() {
    let dmi = Dmi::new("icons".to_string(), 32, 16);
    assert_eq!(dmi.name, "icons");
    assert_eq!((dmi.width, dmi.height), (32, 16));
    assert!(dmi.states.is_empty());
}

#[test]
fn blank_state_has_one_transparent_frame() {
    let s = State::new_blank("idle".to_string(), 3, 2);
    assert_eq!(s.name, "idle");
    assert_eq!((s.dirs, s.frame_count), (1, 1));
    assert_eq!(s.frames, vec![solid(3, 2, transparent())]);
    assert_eq!(s.delays, vec![ONE_TICK]);
    assert_eq!(f32::from_bits(s.delays[0]), 1.0f32);
    assert_eq!((s.loop_, s.rewind, s.movement), (0, false, false));
    assert_eq!(s.hotspots, vec![String::new()]);
}

#[test]
fn crop_takes_the_rectangle() {
    let f = pattern(4, 3, 9);
    let c = f.crop(1, 1, 2, 2);
    assert_eq!((c.width, c.height), (2, 2));
    assert_eq!(c.rows, vec![vec![[1, 1, 9, 255], [2, 1, 9, 255]], vec![[1, 2, 9, 255], [2, 2, 9, 255]]]);
}

#[test]
fn crop_clamps_to_existing_pixels() {
    let f = pattern(4, 3, 0);
    let c = f.crop(3, 2, 5, 5);
    assert_eq!((c.width, c.height), (1, 1));
    assert_eq!(c.rows, vec![vec![[3, 2, 0, 255]]]);
    let none = f.crop(9, 9, 2, 2);
    assert_eq!((none.width, none.height), (0, 0));
}

#[test]
fn expand_pads_with_transparency() {
    let f = solid(1, 1, [7, 7, 7, 255]);
    let e = f.expand(1, 0, 3, 2);
    let t = transparent();
    assert_eq!(e.rows, vec![vec![t, [7, 7, 7, 255], t], vec![t, t, t]]);
}

#[test]
fn sheet_crop_and_expand_keep_every_frame_in_size() {
    let mut dmi = sheet(4, 4, vec![state("a", 4, 2, 4, 4), state("b", 1, 1, 4, 4)]);
    dmi.expand(1, 2, 6, 7);
    assert_eq!((dmi.width, dmi.height), (6, 7));
    for s in &dmi.states {
        assert_eq!(s.frames.len(), (s.dirs * s.frame_count) as usize);
        assert!(s.frames.iter().all(|f| f.width == 6 && f.height == 7 && f.rows.len() == 7));
    }
    dmi.crop(5, 5, 4, 4);
    assert_eq!((dmi.width, dmi.height), (1, 2));
    for s in &dmi.states {
        assert_eq!(s.frames.len(), (s.dirs * s.frame_count) as usize);
        assert!(s.frames.iter().all(|f| f.width == 1 && f.height == 2 && f.rows.iter().all(|r| r.len() == 1)));
    }
}

#[test]
fn expand_then_crop_restores_pixels() {
    let original = sheet(3, 2, vec![state("walk", 4, 3, 3, 2), state("", 1, 1, 3, 2)]);
    let mut dmi = original.clone();
    dmi.expand(2, 1, 8, 5);
    assert_ne!(dmi, original);
    dmi.crop(2, 1, 3, 2);
    assert_eq!(dmi, original);
}

#[test]
fn resize_changes_every_frame() {
    let mut dmi = sheet(4, 4, vec![state("a", 1, 2, 4, 4), state("b", 8, 1, 4, 4)]);
    dmi.resize(8, 2, ResizeFilter::Nearest);
    assert_eq!((dmi.width, dmi.height), (8, 2));
    for s in &dmi.states {
        assert_eq!(s.frames.len(), (s.dirs * s.frame_count) as usize);
        assert!(s.frames.iter().all(|f| f.width == 8 && f.height == 2 && f.rows.iter().all(|r| r.len() == 8)));
    }
}

#[test]
fn resize_nearest_doubles_pixels() {
    let mut dmi = sheet(1, 1, vec![state("dot", 1, 1, 1, 1)]);
    dmi.states[0].frames[0] = solid(1, 1, [200, 100, 50, 255]);
    dmi.resize(2, 2, ResizeFilter::Nearest);
    assert_eq!(dmi.states[0].frames[0], solid(2, 2, [200, 100, 50, 255]));
}

#[test]
fn resize_to_same_size_keeps_pixels() {
    let original = sheet(5, 3, vec![state("a", 4, 1, 5, 3)]);
    let mut dmi = original.clone();
    dmi.resize(5, 3, ResizeFilter::Lanczos3);
    assert_eq!(dmi, original);
}

#[test]
fn import_exact_grid_names_tiles_from_bottom_left() {
    let mut dmi = sheet(32, 32, vec![state("kept", 1, 1, 32, 32)]);
    let img = pattern(64, 32, 1);
    dmi.import_png(&img);
    assert_eq!(dmi.states.len(), 3);
    assert_eq!(dmi.states[0].name, "kept");
    assert_eq!(dmi.states[1].name, "0,0");
    assert_eq!(dmi.states[2].name, "1,0");
    assert_eq!(dmi.states[1].frames[0], img.crop(0, 0, 32, 32));
    assert_eq!(dmi.states[2].frames[0], img.crop(32, 0, 32, 32));
    for s in &dmi.states[1..] {
        assert_eq!((s.dirs, s.frame_count), (1, 1));
        assert_eq!(s.delays, vec![ONE_TICK]);
    }
}

#[test]
fn import_rows_go_bottom_first() {
    let mut dmi = sheet(2, 2, vec![]);
    let img = pattern(4, 4, 0);
    dmi.import_png(&img);
    let names: Vec<&str> = dmi.states.iter().map(|s| s.name.as_str()).collect();
    assert_eq!(names, vec!["0,0", "1,0", "0,1", "1,1"]);
    assert_eq!(dmi.states[0].frames[0], img.crop(0, 2, 2, 2));
    assert_eq!(dmi.states[3].frames[0], img.crop(2, 0, 2, 2));
}

#[test]
fn import_partial_tiles_are_padded() {
    let mut dmi = sheet(2, 2, vec![]);
    let img = solid(3, 1, [5, 6, 7, 255]);
    dmi.import_png(&img);
    assert_eq!(dmi.states.len(), 2);
    let t = transparent();
    let p = [5, 6, 7, 255];
    assert_eq!(dmi.states[0].frames[0].rows, vec![vec![p, p], vec![t, t]]);
    assert_eq!(dmi.states[1].frames[0].rows, vec![vec![p, t], vec![t, t]]);
}

#[test]
fn import_names_use_all_digits() {
    let mut dmi = sheet(1, 1, vec![]);
    dmi.import_png(&pattern(12, 1, 0));
    assert_eq!(dmi.states.len(), 12);
    assert_eq!(dmi.states[10].name, "10,0");
    assert_eq!(dmi.states[11].name, "11,0");
}

#[test]
fn overlay_rejects_wrong_length() {
    assert_eq!(overlay_color(1, 2, 3, 2, 2, vec![0; 15]), None);
    assert_eq!(overlay_color(1, 2, 3, 2, 2, vec![0; 17]), None);
    assert_eq!(overlay_color(1, 2, 3, 2, 2, vec![]), None);
}

#[test]
fn overlay_blends_over_background() {
    let bytes = vec![0, 0, 0, 0, 9, 8, 7, 255];
    let out = overlay_color(10, 20, 30, 2, 1, bytes).unwrap();
    assert_eq!(out, vec![10, 20, 30, 255, 9, 8, 7, 255]);
}

#[test]
fn overlay_of_empty_image_is_empty() {
    assert_eq!(overlay_color(1, 2, 3, 0, 5, vec![]), Some(vec![]));
}

#[test]
fn serialized_round_trip() {
    let original = sheet(3, 2, vec![state("a", 1, 1, 3, 2), state("b", 4, 2, 3, 2), state("c", 8, 3, 3, 2)]);
    let keys = vec!["k0".to_string(), "k1".to_string(), "k2".to_string()];
    let (record, frames) = original.clone().into_serialized("tmp".to_string(), keys);
    assert_eq!(record.temp, "tmp");
    assert_eq!(record.states[1].frame_key, "k1");
    assert_eq!(record.states[2].frame_count, 3);
    let loaded = frames.into_iter().map(|fs| fs.into_iter().map(Some).collect()).collect();
    assert_eq!(Dmi::from_serialized(record, loaded), Ok(original));
}

#[test]
fn empty_sheet_round_trip() {
    let original = sheet(7, 9, vec![]);
    let (record, frames) = original.clone().into_serialized("w".to_string(), vec![]);
    assert!(frames.is_empty());
    assert_eq!(Dmi::from_serialized(record, vec![]), Ok(original));
}

fn record(dirs: u32, frame_count: u32) -> SerializedState {
    let (s, _) = state("s", dirs, frame_count, 2, 2).into_serialized("key".to_string());
    s
}

#[test]
fn missing_frame_file_fails() {
    let mut loaded: Vec<Option<Frame>> = (0..4).map(|k| Some(pattern(2, 2, k))).collect();
    loaded[2] = None;
    assert_eq!(State::from_serialized(record(4, 1), loaded, 2, 2), Err(DmiError::MissingFrameFile));
    let short: Vec<Option<Frame>> = (0..3).map(|k| Some(pattern(2, 2, k))).collect();
    assert_eq!(State::from_serialized(record(4, 1), short, 2, 2), Err(DmiError::MissingFrameFile));
}

#[test]
fn wrong_frame_size_fails() {
    let mut loaded: Vec<Option<Frame>> = (0..2).map(|k| Some(pattern(2, 2, k))).collect();
    loaded[1] = Some(pattern(3, 2, 0));
    assert_eq!(State::from_serialized(record(1, 2), loaded, 2, 2), Err(DmiError::DimensionMismatch));
    let ragged = Frame { width: 2, height: 2, rows: vec![vec![[0; 4]; 2], vec![[0; 4]; 1]] };
    assert_eq!(State::from_serialized(record(1, 1), vec![Some(ragged)], 2, 2), Err(DmiError::DimensionMismatch));
}

#[test]
fn delay_count_mismatch_fails() {
    let mut r = record(1, 2);
    r.delays.pop();
    let loaded: Vec<Option<Frame>> = (0..2).map(|k| Some(pattern(2, 2, k))).collect();
    assert_eq!(State::from_serialized(r, loaded, 2, 2), Err(DmiError::CountMismatch));
}

#[test]
fn sheet_decode_stops_at_first_failing_state() {
    let original = sheet(2, 2, vec![state("a", 1, 1, 2, 2), state("b", 1, 1, 2, 2)]);
    let (record, mut frames) = original.into_serialized("t".to_string(), vec!["a".into(), "b".into()]);
    frames.pop();
    let loaded = frames.into_iter().map(|fs| fs.into_iter().map(Some).collect()).collect();
    assert_eq!(Dmi::from_serialized(record, loaded), Err(DmiError::MissingFrameFile));
}

#[test]
fn clipboard_round_trip() {
    let original = state("walk", 4, 2, 3, 5);
    let clip = original.clone().into_clipboard(3, 5);
    assert_eq!((clip.width, clip.height), (3, 5));
    assert_eq!(State::from_clipboard(clip, 3, 5), Ok(original));
}

#[test]
fn paste_into_other_size_anchors_top_left() {
    let original = state("s", 1, 1, 2, 2);
    let clip = original.clone().into_clipboard(2, 2);
    let pasted = State::from_clipboard(clip.clone(), 3, 1).unwrap();
    let t = transparent();
    assert_eq!(pasted.frames[0].rows, vec![vec![[0, 0, 0, 255], [1, 0, 0, 255], t]]);
    assert_eq!(pasted.name, original.name);
    assert_eq!(pasted.hotspots, original.hotspots);
}

#[test]
fn paste_of_inconsistent_state_fails() {
    let mut clip: ClipboardState = state("s", 4, 1, 2, 2).into_clipboard(2, 2);
    clip.frames.pop();
    assert_eq!(State::from_clipboard(clip, 2, 2), Err(DmiError::ClipboardDecodeFailure));
    let mut clip = state("s", 1, 1, 2, 2).into_clipboard(2, 2);
    clip.width = 4;
    assert_eq!(State::from_clipboard(clip, 2, 2), Err(DmiError::DimensionMismatch));
}

#[test]
fn frame_files_are_direction_major() {
    let r = record(2, 3);
    let files = r.frame_files("tmp");
    assert_eq!(
        files,
        vec![
            "tmp/key.0.0.png",
            "tmp/key.0.1.png",
            "tmp/key.0.2.png",
            "tmp/key.1.0.png",
            "tmp/key.1.1.png",
            "tmp/key.1.2.png",
        ]
    );
    assert_eq!(frame_file_path("/w", "abc", 12, 305), "/w/abc.12.305.png");
}

#[test]
fn writes_are_forced_or_for_absent_files() {
    assert!(must_write(true, true));
    assert!(must_write(true, false));
    assert!(must_write(false, false));
    assert!(!must_write(false, true));
}

#[test]
fn soft_removal_keeps_non_empty_directory() {
    assert_eq!(removal(true, true, false), Removal::Keep);
    assert_eq!(removal(true, true, false), removal(true, true, false));
    assert_eq!(removal(true, true, true), Removal::RemoveEmpty);
    assert_eq!(removal(true, false, false), Removal::RemoveAll);
    assert_eq!(removal(false, true, true), Removal::Keep);
}

#[test]
fn resize_methods_are_named() {
    assert_eq!(ResizeFilter::from_name("nearest"), Some(ResizeFilter::Nearest));
    assert_eq!(ResizeFilter::from_name("triangle"), Some(ResizeFilter::Triangle));
    assert_eq!(ResizeFilter::from_name("catmullrom"), Some(ResizeFilter::CatmullRom));
    assert_eq!(ResizeFilter::from_name("gaussian"), Some(ResizeFilter::Gaussian));
    assert_eq!(ResizeFilter::from_name("lanczos3"), Some(ResizeFilter::Lanczos3));
    assert_eq!(ResizeFilter::from_name("Nearest"), None);
    assert_eq!(ResizeFilter::from_name("lanczos"), None);
    assert_eq!(ResizeFilter::from_name(""), None);
}

#[test]
fn resize_to_zero_width_keeps_rows() {
    let mut dmi = sheet(1, 1, vec![state("a", 1, 1, 1, 1)]);
    dmi.resize(0, 1, ResizeFilter::Triangle);
    assert_eq!((dmi.width, dmi.height), (0, 1));
    assert_eq!(dmi.states[0].frames[0], Frame { width: 0, height: 1, rows: vec![vec![]] });
}

#[test]
fn resize_of_empty_frames_to_same_size_keeps_them() {
    let original = sheet(0, 3, vec![state("a", 1, 2, 0, 3)]);
    let mut dmi = original.clone();
    dmi.resize(0, 3, ResizeFilter::Gaussian);
    assert_eq!(dmi, original);
}

#[test]
fn missing_frame_file_wins_over_count_mismatch() {
    let mut r = record(1, 2);
    r.delays.pop();
    let loaded = vec![Some(pattern(2, 2, 0)), None];
    assert_eq!(State::from_serialized(r, loaded, 2, 2), Err(DmiError::MissingFrameFile));
}

#[test]
fn sheet_missing_frame_file_wins_over_earlier_misfit() {
    let original = sheet(2, 2, vec![state("a", 1, 1, 2, 2), state("b", 1, 1, 2, 2)]);
    let (record, _) = original.into_serialized("t".to_string(), vec!["a".into(), "b".into()]);
    let loaded = vec![vec![Some(pattern(3, 3, 0))], vec![None]];
    assert_eq!(Dmi::from_serialized(record, loaded), Err(DmiError::MissingFrameFile));
}

#[test]
fn unknown_direction_count_fails_to_decode() {
    let (r, frames) = state("s", 2, 1, 2, 2).into_serialized("key".to_string());
    let loaded = frames.into_iter().map(Some).collect();
    assert_eq!(State::from_serialized(r, loaded, 2, 2), Err(DmiError::CountMismatch));
    let (r, _) = state("s", 0, 1, 2, 2).into_serialized("key".to_string());
    assert_eq!(State::from_serialized(r, vec![], 2, 2), Err(DmiError::CountMismatch));
}

#[test]
fn unknown_direction_count_fails_to_paste() {
    let clip = state("s", 2, 1, 2, 2).into_clipboard(2, 2);
    assert_eq!(State::from_clipboard(clip, 2, 2), Err(DmiError::ClipboardDecodeFailure));
}

#[test]
fn catmullrom_resize_keeps_sizes() {
    let mut dmi = sheet(3, 3, vec![state("a", 4, 1, 3, 3)]);
    dmi.resize(6, 5, ResizeFilter::CatmullRom);
    assert_eq!((dmi.width, dmi.height), (6, 5));
    assert!(dmi.states[0].frames.iter().all(|f| f.rows.len() == 5 && f.rows.iter().all(|r| r.len() == 6)));
}
