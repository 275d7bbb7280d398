use tri_raster::FP;
use tri_raster::geom::Triangle;
use tri_raster::geom::Vertex;
use tri_raster::geom::transform_triangle;
use tri_raster::raster::RasterError;
use tri_raster::raster::project_point;
use tri_raster::raster::rasterize;

const COLOR: [u8; 4] = [255, 128, 51, 255];

fn pixel(buf: &[u8], width: usize, row: usize, col: usize) -> [u8; 4] {
    let k = row * width * 4 + col * 4;
    [buf[k], buf[k + 1], buf[k + 2], buf[k + 3]]
}

/// The expected footprint of the base triangle on a 100 x 100
/// surface: rows 25 through 74, spans centered on column 50, the
/// half-width of fill row `i` being `(i + 1) / 2`.
fn expected_colored(row: usize, col: usize) -> bool {
    if !(25 <= row && row < 75) {
        return false;
    }
    let i = row - 25;
    let half_width = (i + 1) / 2;
    50 - half_width <= col && col < 50 + half_width
}

#[test]
fn projection_corners() {
    assert_eq!(project_point(-FP, -FP, 100, 100), (0, 100));
    assert_eq!(project_point(FP, FP, 100, 100), (100, 0));
    assert_eq!(project_point(0, 0, 100, 100), (50, 50));
    assert_eq!(project_point(-FP, -FP, 640, 480), (0, 480));
    assert_eq!(project_point(FP, FP, 640, 480), (640, 0));
    assert_eq!(project_point(0, 0, 640, 480), (320, 240));
    assert_eq!(project_point(0, 0, 99, 33), (49, 17));
}

#[test]
fn base_triangle_scenario() {
    let tri = transform_triangle(0, FP, FP);
    let mut buf: Vec<u8> = vec![0; 100 * 100 * 4];
    let res = rasterize(&tri, &mut buf, 100, 100);
    assert_eq!(res, Ok(()));
    assert_eq!(buf.len(), 100 * 100 * 4);
    for row in 0..100 {
        for col in 0..100 {
            let expected = if expected_colored(row, col) {
                COLOR
            } else {
                [0, 0, 0, 0]
            };
            assert_eq!(pixel(&buf, 100, row, col), expected);
        }
    }
    let row_width = |row: usize| (0..100).filter(|&c| expected_colored(row, c)).count();
    assert_eq!(row_width(25), 0);
    assert_eq!(row_width(74), 50);
    assert_eq!(row_width(24), 0);
    assert_eq!(row_width(75), 0);
}

#[test]
fn rasterize_is_idempotent() {
    let tri = transform_triangle(17000, 63000, FP);
    let mut once: Vec<u8> = vec![0; 64 * 64 * 4];
    let mut twice: Vec<u8> = vec![0; 64 * 64 * 4];
    assert_eq!(rasterize(&tri, &mut once, 64, 64), Ok(()));
    assert_eq!(rasterize(&tri, &mut twice, 64, 64), Ok(()));
    assert_eq!(once, twice);
    assert_eq!(rasterize(&tri, &mut twice, 64, 64), Ok(()));
    assert_eq!(once, twice);
}

#[test]
fn spans_are_contiguous_and_edges_monotone() {
    let tri = transform_triangle(0, FP, FP);
    let mut buf: Vec<u8> = vec![0; 100 * 100 * 4];
    assert_eq!(rasterize(&tri, &mut buf, 100, 100), Ok(()));
    let mut prev_span: Option<(usize, usize)> = None;
    for row in 25..75 {
        let colored: Vec<usize> = (0..100)
            .filter(|&c| pixel(&buf, 100, row, c) == COLOR)
            .collect();
        if colored.is_empty() {
            continue;
        }
        let start = colored[0];
        let stop = colored[colored.len() - 1] + 1;
        assert!(start <= stop);
        assert_eq!(colored.len(), stop - start, "row {} not contiguous", row);
        if let Some((ps, pe)) = prev_span {
            assert!(start <= ps, "left edge oscillates at row {}", row);
            assert!(pe <= stop, "right edge oscillates at row {}", row);
        }
        prev_span = Some((start, stop));
    }
}

#[test]
fn out_of_range_triangle_is_refused() {
    let tri = Triangle {
        v0: Vertex { x: -FP - 1, y: 0, z: 0 },
        v1: Vertex { x: 0, y: FP, z: 0 },
        v2: Vertex { x: FP, y: -FP, z: 0 },
    };
    let mut buf: Vec<u8> = vec![7; 8 * 8 * 4];
    let res = rasterize(&tri, &mut buf, 8, 8);
    assert_eq!(res, Err(RasterError::OutOfRange));
    assert!(buf.iter().all(|&b| b == 7));
}

#[test]
fn degenerate_flat_triangle_fills_nothing() {
    let tri = Triangle {
        v0: Vertex { x: -FP, y: 0, z: 0 },
        v1: Vertex { x: 0, y: 0, z: 0 },
        v2: Vertex { x: FP, y: 0, z: 0 },
    };
    let mut buf: Vec<u8> = vec![0; 16 * 16 * 4];
    assert_eq!(rasterize(&tri, &mut buf, 16, 16), Ok(()));
    assert!(buf.iter().all(|&b| b == 0));
}
