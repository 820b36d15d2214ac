use satpaper::background::BackgroundCache;
use satpaper::composite::{composite, fit_background, placement_offset, CycleOutcome};
use satpaper::disk::{cutout_disk, is_within, march_left, march_right, radius_of};
use satpaper::error::SliderError;
use satpaper::raster::Raster;
use satpaper::stitch::{grid_cells, stitch, tile_size, tiles_fit, Tile};
use satpaper::tile::decode_tile;
use satpaper::timestamp::{latest_of, Date, Time};

fn solid(width: u32, height: u32, p: (u8, u8, u8)) -> Raster {
    let mut data = Vec::new();
    for _ in 0..(width * height) {
        data.push(p.0);
        data.push(p.1);
        data.push(p.2);
    }
    Raster { width, height, data }
}

fn pixel(img: &Raster, x: u32, y: u32) -> (u8, u8, u8) {
    img.get_pixel(x, y)
}

fn encode_png(width: u32, height: u32, color: png::ColorType, data: &[u8]) -> Vec<u8> {
    let mut out = Vec::new();
    {
        let mut enc = png::Encoder::new(&mut out, width, height);
        enc.set_color(color);
        enc.set_depth(png::BitDepth::Eight);
        let mut w = enc.write_header().unwrap();
        w.write_image_data(data).unwrap();
    }
    out
}

#[test]
fn test_date_split() {
    assert_eq!(Date { date: 20231026 }.split(), (2023, 10, 26));
    assert_eq!(Date { date: 20270425 }.split(), (2027, 4, 25));
}

#[test]
fn time_from_json_takes_first_code() {
    let doc = br#"{"timestamps_int": [20231026123000, 20231026122000]}"#;
    assert_eq!(Time::from_json(doc).unwrap().as_int(), 20231026123000);
}

#[test]
fn date_from_json_takes_first_code() {
    let doc = br#"{"dates_int": [20231026, 20231025], "other": "x"}"#;
    assert_eq!(Date::from_json(doc).unwrap().split(), (2023, 10, 26));
}

#[test]
fn empty_code_list_is_parse_error() {
    assert_eq!(Time::from_json(br#"{"timestamps_int": []}"#), Err(SliderError::Parse));
    assert_eq!(latest_of(&vec![]), Err(SliderError::Parse));
    assert_eq!(latest_of(&vec![7, 3]), Ok(7));
}

#[test]
fn malformed_json_is_parse_error() {
    assert_eq!(Date::from_json(b"{not json"), Err(SliderError::Parse));
    assert_eq!(Date::from_json(br#"{"timestamps_int": [1]}"#), Err(SliderError::Parse));
    assert_eq!(Date::from_json(br#"{"dates_int": [20231026, "x"]}"#), Err(SliderError::Parse));
}

#[test]
fn code_list_must_be_an_array_in_an_object() {
    assert_eq!(Time::from_json(b"5"), Err(SliderError::Parse));
    assert_eq!(Time::from_json(br#"[7, 8]"#), Err(SliderError::Parse));
    assert_eq!(Time::from_json(br#"{"timestamps_int": 5}"#), Err(SliderError::Parse));
    assert_eq!(Time::from_json(br#"{"timestamps_int": [7, -1]}"#), Err(SliderError::Parse));
    assert_eq!(Time::from_json(br#"{"timestamps_int": [7, 8]}"#), Ok(Time { timestamp: 7 }));
}

#[test]
fn march_on_bright_image_finds_both_edges() {
    let img = solid(7, 5, (200, 200, 200));
    assert_eq!(march_right(&img, 2), 0);
    assert_eq!(march_left(&img, 2), 6);
}

#[test]
fn march_on_black_image_gives_zero_radius() {
    let img = solid(7, 5, (0, 0, 0));
    let left = march_right(&img, 2);
    let right = march_left(&img, 2);
    assert_eq!((left, right), (6, 0));
    assert_eq!(radius_of(left, right), 0);
    let mut bg = solid(7, 5, (9, 9, 9));
    cutout_disk(&mut bg, img, 0, 0);
    assert_eq!(bg.data, solid(7, 5, (9, 9, 9)).data);
}

#[test]
fn march_finds_first_lit_pixel() {
    let mut img = solid(10, 3, (0, 0, 0));
    img.put_pixel(3, 1, (5, 5, 5));
    img.put_pixel(7, 1, (50, 60, 70));
    img.put_pixel(8, 1, (50, 4, 70));
    assert_eq!(march_right(&img, 1), 3);
    assert_eq!(march_left(&img, 1), 7);
    assert_eq!(radius_of(3, 7), 2);
}

#[test]
fn boundary_distance_is_outside() {
    assert!(!is_within(0, 0, 5, 3, 4));
    assert!(is_within(0, 0, 5, 3, 3));
    assert!(is_within(4, 4, 1, 4, 4));
    assert!(!is_within(4, 4, 0, 4, 4));
}

#[test]
fn centre_is_inside_when_radius_positive() {
    let img = solid(9, 9, (100, 100, 100));
    let mut bg = solid(9, 9, (0, 0, 0));
    cutout_disk(&mut bg, img, 0, 0);
    assert_eq!(pixel(&bg, 4, 4), (100, 100, 100));
    assert_eq!(pixel(&bg, 0, 0), (0, 0, 0));
}

#[test]
fn stitch_canvas_size_and_margin() {
    let ts = tile_size(10, 3);
    assert_eq!(ts, 3);
    let mut tiles = Vec::new();
    for x in 0..3 {
        for y in 0..3 {
            tiles.push(Tile { x, y, image: solid(3, 3, (255, 255, 255)) });
        }
    }
    assert!(tiles_fit(&tiles, 3, ts));
    let canvas = stitch(&tiles, 3, 10);
    assert_eq!((canvas.width, canvas.height), (10, 10));
    assert_eq!(canvas.data.len(), 300);
    assert_eq!(pixel(&canvas, 8, 8), (255, 255, 255));
    assert_eq!(pixel(&canvas, 9, 0), (0, 0, 0));
    assert_eq!(pixel(&canvas, 0, 9), (0, 0, 0));
    assert_eq!(pixel(&canvas, 9, 9), (0, 0, 0));
}

#[test]
fn stitch_places_tile_at_its_cell() {
    let tiles = vec![
        Tile { x: 1, y: 0, image: solid(2, 2, (10, 20, 30)) },
        Tile { x: 0, y: 1, image: solid(2, 2, (40, 50, 60)) },
    ];
    let canvas = stitch(&tiles, 2, 4);
    assert_eq!(pixel(&canvas, 2, 0), (10, 20, 30));
    assert_eq!(pixel(&canvas, 3, 1), (10, 20, 30));
    assert_eq!(pixel(&canvas, 0, 2), (40, 50, 60));
    assert_eq!(pixel(&canvas, 0, 0), (0, 0, 0));
    assert_eq!(pixel(&canvas, 3, 3), (0, 0, 0));
}

#[test]
fn stitch_ignores_completion_order() {
    let mut tiles = Vec::new();
    for (x, y) in grid_cells(3) {
        let v = (x * 3 + y) as u8 * 20;
        tiles.push(Tile { x, y, image: solid(2, 2, (v, v + 1, v + 2)) });
    }
    let forward = stitch(&tiles, 3, 7);
    let mut reordered = tiles.clone();
    reordered.reverse();
    reordered.swap(1, 4);
    let backward = stitch(&reordered, 3, 7);
    assert_eq!(forward.data, backward.data);
}

#[test]
fn tiles_sharing_a_cell_do_not_fit() {
    let tiles = vec![
        Tile { x: 0, y: 0, image: solid(2, 2, (1, 1, 1)) },
        Tile { x: 0, y: 0, image: solid(2, 2, (2, 2, 2)) },
    ];
    assert!(!tiles_fit(&tiles, 2, 2));
    let outside = vec![Tile { x: 2, y: 0, image: solid(2, 2, (1, 1, 1)) }];
    assert!(!tiles_fit(&outside, 2, 2));
    let wrong_size = vec![Tile { x: 0, y: 0, image: solid(3, 2, (1, 1, 1)) }];
    assert!(!tiles_fit(&wrong_size, 2, 2));
}

#[test]
fn grid_cells_go_column_by_column() {
    assert_eq!(grid_cells(2), vec![(0, 0), (0, 1), (1, 0), (1, 1)]);
    assert_eq!(grid_cells(0), vec![]);
}

#[test]
fn placement_is_centred() {
    assert_eq!(placement_offset(30, 20), 5);
    assert_eq!(placement_offset(31, 20), 5);
    assert_eq!(placement_offset(20, 20), 0);
}

fn quadrant_disk() -> Raster {
    let tiles = vec![
        Tile { x: 0, y: 0, image: solid(10, 10, (0, 0, 0)) },
        Tile { x: 1, y: 0, image: solid(10, 10, (255, 255, 255)) },
        Tile { x: 0, y: 1, image: solid(10, 10, (255, 255, 255)) },
        Tile { x: 1, y: 1, image: solid(10, 10, (255, 255, 255)) },
    ];
    assert_eq!(tile_size(20, 2), 10);
    stitch(&tiles, 2, 20)
}

#[test]
fn end_to_end_with_background_hides_black_quadrant() {
    let stitched = quadrant_disk();
    let bg = solid(30, 30, (10, 200, 30));
    let out = composite(Some(&bg), stitched, 30, 30);
    assert_eq!((out.width, out.height), (30, 30));
    assert_eq!(pixel(&out, 5 + 2, 5 + 2), (10, 200, 30));
    assert_eq!(pixel(&out, 5, 5), (10, 200, 30));
    assert_eq!(pixel(&out, 0, 0), (10, 200, 30));
    assert_eq!(pixel(&out, 5 + 10, 5 + 10), (255, 255, 255));
}

#[test]
fn end_to_end_without_background_shows_black_quadrant() {
    let stitched = quadrant_disk();
    let out = composite(None, stitched, 30, 30);
    assert_eq!(pixel(&out, 5 + 2, 5 + 2), (0, 0, 0));
    assert_eq!(pixel(&out, 5 + 12, 5 + 2), (255, 255, 255));
    assert_eq!(pixel(&out, 5 + 19, 5 + 19), (255, 255, 255));
    assert_eq!(pixel(&out, 4, 4), (0, 0, 0));
}

#[test]
fn background_is_fitted_to_canvas() {
    let bg = solid(4, 2, (100, 100, 100));
    let fitted = fit_background(bg.clone(), 8, 4);
    assert_eq!((fitted.width, fitted.height), (8, 4));
    assert_eq!(fitted.data.len(), 96);
    assert_eq!(pixel(&fitted, 3, 1), (100, 100, 100));
    let same = fit_background(bg.clone(), 4, 2);
    assert_eq!(same.data, bg.data);
}

#[test]
fn background_loads_once_and_retries_after_failure() {
    let mut cache = BackgroundCache::new();
    let mut loads = 0;
    let attempts = [false, true, true, true];
    for ok in attempts {
        if cache.needs_load() {
            loads += 1;
            if ok {
                cache.store(solid(2, 2, (1, 2, 3)), 2, 2);
            }
        }
        if ok {
            assert!(cache.image().is_some());
        }
    }
    assert_eq!(loads, 2);
    cache.store(solid(2, 2, (9, 9, 9)), 2, 2);
    assert_eq!(pixel(cache.image().unwrap(), 0, 0), (1, 2, 3));
}

#[test]
fn decode_tile_scales_rgb_png() {
    let data: Vec<u8> = (0..48).map(|i| (i * 5) as u8).collect();
    let bytes = encode_png(4, 4, png::ColorType::Rgb, &data);
    let tile = decode_tile(&bytes, 1, 2, 4, 4, 2).unwrap();
    assert_eq!((tile.x, tile.y), (1, 2));
    assert_eq!((tile.image.width, tile.image.height), (2, 2));
    assert_eq!(tile.image.data.len(), 12);
    let same = decode_tile(&bytes, 0, 0, 4, 4, 4).unwrap();
    assert_eq!(same.image.data, data);
}

#[test]
fn decode_tile_rejects_bad_payloads() {
    let data = vec![7u8; 48];
    let bytes = encode_png(4, 4, png::ColorType::Rgb, &data);
    assert_eq!(decode_tile(&bytes, 0, 0, 5, 4, 2).map(|_| ()), Err(SliderError::Decode));
    let rgba = encode_png(2, 2, png::ColorType::Rgba, &[1u8; 16]);
    assert_eq!(decode_tile(&rgba, 0, 0, 2, 2, 2).map(|_| ()), Err(SliderError::Decode));
    assert_eq!(decode_tile(b"not a png", 0, 0, 2, 2, 2).map(|_| ()), Err(SliderError::Decode));
}

#[test]
fn outcome_reports_update() {
    assert!(CycleOutcome::Updated.is_updated());
    assert!(!CycleOutcome::Skipped(SliderError::Network).is_updated());
    assert!(!CycleOutcome::Failed(SliderError::Io).is_updated());
}
