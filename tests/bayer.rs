use cam_vis::rggb::{demosaic, get_idx};

fn run(data: &[u8], w: usize, h: usize) -> Vec<[u8; 3]> {
    let mut buf = vec![[0u8; 3]; w * h];
    demosaic(data, &mut buf, w, h);
    buf
}

fn uniform_plane(w: usize, h: usize, vals: [u8; 3]) -> Vec<u8> {
    let mut data = Vec::new();
    for y in 0..h {
        for x in 0..w {
            let c = match (x % 2, y % 2) {
                (0, 0) => 0,
                (1, 1) => 2,
                _ => 1,
            };
            data.push(vals[c]);
        }
    }
    data
}

#[test]
fn uniform_mosaic_is_uniform_everywhere() {
    for &(w, h) in &[(4usize, 4usize), (6, 4), (8, 6)] {
        let data = uniform_plane(w, h, [200, 100, 50]);
        let out = run(&data, w, h);
        assert_eq!(out.len(), w * h);
        for p in &out {
            assert_eq!(*p, [200, 100, 50]);
        }
    }
}

#[test]
fn ramp_four_by_four_edges_and_corners() {
    let data: Vec<u8> = (0..16u32).map(|i| ((i * 13) % 256) as u8).collect();
    let out = run(&data, 4, 4);
    let expected: [[u8; 3]; 16] = [
        [0, 32, 65], [13, 13, 65], [26, 43, 78], [26, 39, 91],
        [52, 52, 65], [65, 65, 65], [78, 78, 78], [78, 86, 91],
        [104, 108, 117], [117, 117, 117], [130, 130, 130], [130, 143, 143],
        [104, 156, 169], [117, 151, 169], [130, 182, 182], [130, 162, 195],
    ];
    assert_eq!(out, expected.to_vec());
}

#[test]
fn ramp_six_by_six_interior_and_border() {
    let data: Vec<u8> = (0..36u32).map(|i| ((i * 7 + 3) % 256) as u8).collect();
    let out = run(&data, 6, 6);
    assert_eq!(out[0], [3, 27, 52]);
    assert_eq!(out[5], [31, 38, 80]);
    assert_eq!(out[6 + 5], [73, 77, 80]);
    assert_eq!(out[2 * 6 + 2], [101, 101, 101]);
    assert_eq!(out[3 * 6 + 3], [150, 150, 150]);
    assert_eq!(out[2 * 6], [87, 89, 94]);
    assert_eq!(out[5 * 6 + 1], [178, 206, 220]);
    assert_eq!(out[35], [199, 223, 248]);
}

#[test]
fn flat_index_is_row_major() {
    assert_eq!(get_idx(0, 0, 8), 0);
    assert_eq!(get_idx(3, 2, 8), 19);
    assert_eq!(get_idx(7, 5, 8), 47);
}
