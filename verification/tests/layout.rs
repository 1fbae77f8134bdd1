use spitfire::binary64::Binary64;
use spitfire::fibonacci;
use spitfire::geometry::{Point, Rect};
use spitfire::layout;
use spitfire::monocle;
use spitfire::params::{Gaps, LayoutMode, LayoutParams, MFACT_MAX, MFACT_MIN};
use spitfire::tile;
use std::collections::HashSet;

fn area() -> Rect {
    Rect::new(0, 0, 1920, 1080)
}

fn num(x: f64) -> Binary64 {
    Binary64 { bits: x.to_bits() }
}

#[test]
fn fibonacci_single_window_fills_area() {
    assert_eq!(fibonacci::arrange(1, area(), 0, 0), vec![area()]);
}

#[test]
fn two_windows_split_left_right() {
    let rects = fibonacci::arrange(2, area(), 0, 6);
    assert_eq!(rects[0].x, area().x);
    assert_eq!(rects[1].x, rects[0].x + rects[0].w + 6);
    assert_eq!(rects[0].h, area().h);
    assert_eq!(rects[1].h, area().h);
}

#[test]
fn three_windows_second_split_is_vertical() {
    let rects = fibonacci::arrange(3, area(), 0, 6);
    assert_eq!(rects[1].x, rects[2].x);
    assert_eq!(rects[1].w, rects[2].w);
    assert!(rects[2].y > rects[1].y);
}

#[test]
fn consecutive_windows_never_get_identical_rects() {
    for n in 2..=6usize {
        let rects = fibonacci::arrange(n, area(), 10, 6);
        for pair in rects.windows(2) {
            assert_ne!(pair[0], pair[1], "n={n}");
        }
    }
}

#[test]
fn fibonacci_windows_never_overflow_the_area() {
    for n in 1..=8usize {
        let rects = fibonacci::arrange(n, area(), 10, 6);
        for r in &rects {
            assert!(r.x >= area().x + 10 && r.y >= area().y + 10, "n={n} rect={r:?}");
            assert!(r.x + r.w <= area().x + area().w - 10, "n={n} rect={r:?}");
            assert!(r.y + r.h <= area().y + area().h - 10, "n={n} rect={r:?}");
        }
    }
}

#[test]
fn fibonacci_zero_windows_produces_no_rects() {
    assert_eq!(fibonacci::arrange(0, area(), 10, 6), Vec::new());
}

#[test]
fn shrink_moves_origin_and_reduces_size_by_twice_the_margin() {
    let r = Rect::new(0, 0, 1920, 1080).shrink(10);
    assert_eq!(r, Rect::new(10, 10, 1900, 1060));
}

#[test]
fn shrink_saturates_at_zero_instead_of_going_negative() {
    let r = Rect::new(0, 0, 10, 10).shrink(100);
    assert_eq!(r.w, 0);
    assert_eq!(r.h, 0);
}

#[test]
fn shrink_by_zero_is_a_no_op() {
    let r = Rect::new(5, 5, 100, 200);
    assert_eq!(r.shrink(0), r);
}

#[test]
fn shrink_by_a_negative_margin_is_a_no_op() {
    let r = Rect::new(5, 5, 100, 200);
    assert_eq!(r.shrink(-3), r);
}

#[test]
fn floating_returns_none_it_never_touches_geometry() {
    let params = LayoutParams {
        mode: LayoutMode::Floating,
        ..Default::default()
    };
    assert!(layout::arrange(&[1, 2, 3], area(), &params).is_none());
}

#[test]
fn empty_window_list_is_some_empty_vec_not_none() {
    let params = LayoutParams::default();
    let placements: Option<Vec<(i32, Rect)>> = layout::arrange(&[], area(), &params);
    assert_eq!(placements, Some(vec![]));
}

#[test]
fn tile_single_window_fills_area_minus_outer_gap() {
    let params = LayoutParams::default();
    let placements = layout::arrange(&[1], area(), &params).unwrap();
    let (_, rect) = placements[0];
    assert_eq!(rect.x, params.gaps.outer);
    assert_eq!(rect.y, params.gaps.outer);
    assert_eq!(rect.w, area().w - params.gaps.outer * 2);
    assert_eq!(rect.h, area().h - params.gaps.outer * 2);
}

#[test]
fn tile_two_windows_master_and_stack_side_by_side() {
    let params = LayoutParams::default();
    let placements = layout::arrange(&[1, 2], area(), &params).unwrap();
    let master = placements[0].1;
    let stack = placements[1].1;
    assert_eq!(stack.x, master.x + master.w + params.gaps.inner);
    assert_eq!(master.h, area().h - params.gaps.outer * 2);
    assert_eq!(stack.h, master.h);
}

#[test]
fn switching_mode_at_runtime_changes_the_placement() {
    let mut params = LayoutParams::default();
    let tiled = layout::arrange(&[1, 2, 3], area(), &params).unwrap();

    params.set_mode(LayoutMode::Monocle);
    let monocled = layout::arrange(&[1, 2, 3], area(), &params).unwrap();

    assert_ne!(tiled[1].1, monocled[1].1);
    assert!(monocled.iter().all(|(_, r)| *r == monocled[0].1));
}

#[test]
fn window_placements_preserve_the_input_window_identity() {
    let params = LayoutParams::default();
    let placements = layout::arrange(&["a", "b", "c"], area(), &params).unwrap();
    let ids: Vec<_> = placements.iter().map(|(id, _)| *id).collect();
    assert_eq!(ids, vec!["a", "b", "c"]);
}

#[test]
fn all_windows_share_the_same_rect() {
    let rects = monocle::arrange(4, Rect::new(0, 0, 1920, 1080), 10);
    let first = rects[0];
    assert!(rects.iter().all(|r| *r == first));
    assert_eq!(first, Rect::new(10, 10, 1900, 1060));
}

#[test]
fn monocle_zero_windows_produces_no_rects() {
    assert_eq!(
        monocle::arrange(0, Rect::new(0, 0, 1920, 1080), 10),
        Vec::new()
    );
}

#[test]
fn cycle_mode_visits_all_four_modes_and_returns_to_start() {
    let mut mode = LayoutMode::Tile;
    let mut seen = HashSet::new();
    for _ in 0..4 {
        seen.insert(mode);
        mode = mode.cycle_next();
    }
    assert_eq!(seen.len(), 4);
    assert_eq!(mode, LayoutMode::Tile);
}

#[test]
fn inc_mfact_clamps_to_bounds() {
    let mut params = LayoutParams::default();
    let up = f64::from_bits(params.mfact.bits) + 10.0;
    params.inc_mfact(num(up));
    assert_eq!(params.mfact.bits, MFACT_MAX);
    let down = f64::from_bits(params.mfact.bits) + -10.0;
    params.inc_mfact(num(down));
    assert_eq!(params.mfact.bits, MFACT_MIN);
}

#[test]
fn mfact_bounds_are_the_documented_numbers() {
    assert_eq!(f64::from_bits(MFACT_MIN), 0.05);
    assert_eq!(f64::from_bits(MFACT_MAX), 0.95);
    assert_eq!(f64::from_bits(LayoutParams::default().mfact.bits), 0.55);
}

#[test]
fn inc_nmaster_never_goes_negative() {
    let mut params = LayoutParams::default();
    params.nmaster = 1;
    params.inc_nmaster(-5);
    assert_eq!(params.nmaster, 0);
    params.inc_nmaster(3);
    assert_eq!(params.nmaster, 3);
}

#[test]
fn tile_single_window_fills_area() {
    let rects = tile::arrange(1, area(), 1, num(0.55), 0, 0);
    assert_eq!(rects, vec![area()]);
}

#[test]
fn nmaster_zero_is_a_single_full_width_stack() {
    let rects = tile::arrange(2, area(), 0, num(0.55), 0, 0);
    assert_eq!(rects[0].x, rects[1].x);
    assert_eq!(rects[0].w, area().w);
    assert!(rects[1].y > rects[0].y);
}

#[test]
fn nmaster_covering_all_windows_is_a_single_full_width_stack() {
    let rects = tile::arrange(3, area(), 3, num(0.55), 0, 0);
    assert!(rects.iter().all(|r| r.w == area().w));
}

#[test]
fn master_and_stack_columns_sit_side_by_side_with_a_gap() {
    let rects = tile::arrange(2, area(), 1, num(0.5), 0, 6);
    let master = rects[0];
    let stack = rects[1];
    assert_eq!(stack.x, master.x + master.w + 6);
    assert_eq!(master.h, area().h);
    assert_eq!(stack.h, area().h);
}

#[test]
fn mfact_controls_the_master_column_width() {
    let narrow = tile::arrange(2, area(), 1, num(0.3), 0, 0)[0].w;
    let wide = tile::arrange(2, area(), 1, num(0.7), 0, 0)[0].w;
    assert!(wide > narrow);
}

#[test]
fn extra_windows_beyond_nmaster_stack_vertically() {
    let rects = tile::arrange(3, area(), 1, num(0.5), 0, 6);
    assert_eq!(rects[1].x, rects[2].x);
    assert_eq!(rects[1].w, rects[2].w);
    assert!(rects[2].y > rects[1].y);
}

#[test]
fn tile_windows_never_overflow_the_area() {
    for n in 1..=8usize {
        for nmaster in 0..=n {
            let rects = tile::arrange(n, area(), nmaster, num(0.55), 10, 6);
            for r in &rects {
                assert!(
                    r.x >= area().x && r.y >= area().y,
                    "n={n} nmaster={nmaster} rect={r:?}"
                );
                assert!(
                    r.x + r.w <= area().x + area().w,
                    "n={n} nmaster={nmaster} rect={r:?}"
                );
                assert!(
                    r.y + r.h <= area().y + area().h,
                    "n={n} nmaster={nmaster} rect={r:?}"
                );
            }
        }
    }
}

#[test]
fn split_column_rows_tile_the_full_height_with_no_gap_at_the_bottom() {
    let rects = tile::split_column(Rect::new(0, 0, 100, 100), 3, 4);
    assert_eq!(rects.len(), 3);
    let last = rects.last().unwrap();
    assert_eq!(last.y + last.h, 100);
}

#[test]
fn tile_zero_windows_produces_no_rects() {
    assert_eq!(
        tile::arrange(0, area(), 1, num(0.55), 10, 6),
        Vec::new()
    );
}

#[test]
fn tiled_windows_do_not_overlap() {
    let rects = tile::arrange(5, area(), 2, num(0.6), 10, 6);
    for (i, a) in rects.iter().enumerate() {
        for b in &rects[i + 1..] {
            assert_eq!(a.intersection(*b), None);
        }
    }
}

#[test]
fn spiral_windows_do_not_overlap() {
    let rects = fibonacci::arrange(6, area(), 10, 6);
    for (i, a) in rects.iter().enumerate() {
        for b in &rects[i + 1..] {
            assert_eq!(a.intersection(*b), None);
        }
    }
}

#[test]
fn master_column_takes_its_share() {
    let rects = tile::arrange(2, area(), 1, num(0.55), 10, 6);
    let usable = 1900 - 6;
    let master = (usable as f64 * 0.55).round() as i32;
    assert_eq!(rects[0], Rect::new(10, 10, master, 1060));
    assert_eq!(rects[1], Rect::new(10 + master + 6, 10, usable - master, 1060));
}

#[test]
fn default_gaps() {
    assert_eq!(Gaps::default(), Gaps { inner: 6, outer: 10 });
}

#[test]
fn intersection_and_merge_of_rectangles() {
    let a = Rect::new(0, 0, 10, 10);
    let b = Rect::new(5, 5, 10, 10);
    assert_eq!(a.intersection(b), Some(Rect::new(5, 5, 5, 5)));
    assert_eq!(a.merge(b), Rect::new(0, 0, 15, 15));
    assert_eq!(a.intersection(Rect::new(10, 0, 5, 5)), None);
    assert!(a.contains(Point { x: 9, y: 9 }));
    assert!(!a.contains(Point { x: 10, y: 9 }));
}

#[test]
fn scaling_agrees_with_floating_point() {
    let factors = [0.0, 0.1, 0.3, 0.5, 0.55, 0.7, 1.0, 1.25, 1e-9, 1e9, -0.55, -1e30];
    let counts = [0, 1, 2, 3, 7, 1079, 1080, 1919, 1920, -1, -5, i32::MAX, i32::MIN];
    for f in factors {
        for n in counts {
            assert_eq!(num(f).scale_i32(n), (n as f64 * f).round() as i32, "{n} * {f}");
        }
    }
    assert_eq!(num(f64::NAN).scale_i32(3), 0);
    assert_eq!(num(f64::INFINITY).scale_i32(3), i32::MAX);
}

#[test]
fn cycling_changes_the_mode_alone() {
    let mut params = LayoutParams::default();
    let before = params;
    params.cycle_mode();
    assert_eq!(params.mode, before.mode.cycle_next());
    assert_eq!(params.nmaster, before.nmaster);
    assert_eq!(params.gaps, before.gaps);
}

#[test]
fn a_larger_share_never_narrows_the_master() {
    let shares = [
        -1.0, -0.0, 0.0, 5e-324, 1e-300, 0.05, 0.3, 0.4999999999999999, 0.5, 0.55, 0.7, 0.95, 1.0,
        1.5, 1e300, f64::INFINITY,
    ];
    for pair in shares.windows(2) {
        let before = tile::arrange(3, area(), 1, num(pair[0]), 10, 6);
        let after = tile::arrange(3, area(), 1, num(pair[1]), 10, 6);
        assert!(before[0].w <= after[0].w, "{pair:?}");
        assert!(before[1].w >= after[1].w && before[2].w >= after[2].w, "{pair:?}");
    }
}
