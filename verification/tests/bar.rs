use spitfire::bar::{bar_data, bar_elements, draw_layout_icon};
use spitfire::cache::{CacheStep, GlyphBatch, RectCache};
use spitfire::color::{hex_to_rgb, Rgb};
use spitfire::config::BarConfig;
use spitfire::geometry::{Rect, Size};
use spitfire::glyph::{
    draw_text, glyph_advance, glyph_for, glyph_pixel_size, glyph_rects, measure_text, Glyph,
    GLYPH_COLS,
};
use spitfire::params::LayoutMode;
use spitfire::status::{Bar, Readings};
use spitfire::sysinfo::{
    battery_status, cpu_total_idle, link_status, ram_percent, read_cpu_counters, read_meminfo,
    wireless_interface, PowerSupply,
};
use spitfire::workspace::WorkspaceSet;
use std::collections::HashSet;

fn white() -> Rgb {
    Rgb {
        r: 255,
        g: 255,
        b: 255,
    }
}

fn lit_pixels(glyph: &Glyph) -> HashSet<(i32, i32)> {
    let mut pixels = HashSet::new();
    for (row, &bits) in glyph.iter().enumerate() {
        for col in 0..GLYPH_COLS {
            if bits & (1 << (GLYPH_COLS - 1 - col) as u32) != 0 {
                pixels.insert((col, row as i32));
            }
        }
    }
    pixels
}

fn rects_pixels(rects: &[Rect]) -> Vec<(i32, i32)> {
    rects
        .iter()
        .flat_map(|r| {
            let (col, row, w, h) = (r.x, r.y, r.w, r.h);
            (col..col + w).flat_map(move |c| (row..row + h).map(move |r| (c, r)))
        })
        .collect()
}

#[test]
fn merged_rects_cover_exactly_the_lit_pixels_for_every_glyph() {
    let chars = ('0'..='9')
        .chain('A'..='Z')
        .chain(['%', '+', '-', '_', ':', '.', '|']);
    for c in chars {
        let glyph = glyph_for(c).unwrap_or_else(|| panic!("no glyph for {c:?}"));
        let rects = glyph_rects(&glyph);
        let pixels = rects_pixels(&rects);

        let mut seen = HashSet::new();
        for p in &pixels {
            assert!(
                seen.insert(*p),
                "{c:?}: pixel {p:?} covered by overlapping rects"
            );
        }
        assert_eq!(
            seen,
            lit_pixels(&glyph),
            "{c:?}: merged rects don't cover the same pixels as the glyph"
        );
    }
}

#[test]
fn merging_meaningfully_reduces_rect_count() {
    let glyph = glyph_for('0').unwrap();
    assert_eq!(glyph_rects(&glyph).len(), 4);
}

#[test]
fn unchanged_content_keeps_the_same_id_and_commit() {
    let mut batch = GlyphBatch::default();
    let rects = vec![Rect::new(0, 0, 5, 7), Rect::new(10, 0, 5, 7)];

    let first = batch.element(rects.clone(), white(), 1).unwrap();
    let second = batch.element(rects, white(), 2).unwrap();

    assert_eq!(first.id, second.id);
    assert_eq!(first.commit, second.commit);
    assert_eq!(first.geometry, Rect::new(0, 0, 15, 7));
}

#[test]
fn changed_content_keeps_the_id_but_bumps_the_commit() {
    let mut batch = GlyphBatch::default();
    let first = batch
        .element(vec![Rect::new(0, 0, 5, 7)], white(), 1)
        .unwrap();
    let second = batch
        .element(vec![Rect::new(0, 0, 5, 8)], white(), 2)
        .unwrap();

    assert_eq!(first.id, second.id);
    assert_ne!(first.commit, second.commit);
}

#[test]
fn empty_rects_produce_no_element() {
    let mut batch = GlyphBatch::default();
    assert!(batch.element(Vec::new(), white(), 1).is_none());
}

#[test]
fn a_realistic_bar_collapses_to_a_handful_of_glyph_batches() {
    let status =
        "CPU: 66% | RAM: 45% | BAT: 82%+ | NETWORK: MYHOMEWIFI 80% | 14:23 - 06.08.2026"
            .to_uppercase();

    let mut fg_rects = Vec::new();
    let mut x = 0;
    for n in 1..=5 {
        x = draw_text(&mut fg_rects, &n.to_string(), x, 0, 21, 3);
        x += 4;
    }
    draw_layout_icon(&mut fg_rects, LayoutMode::Tile, x, 0, 21);
    draw_text(&mut fg_rects, &status, x, 0, 21, 3);

    assert!(
        fg_rects.len() > 200,
        "expected a few hundred glyph rects, got {}",
        fg_rects.len()
    );

    let mut batch = GlyphBatch::default();
    assert!(batch.element(fg_rects, white(), 1).is_some());
}

#[test]
fn text_is_as_wide_as_it_is_drawn() {
    let mut rects = Vec::new();
    let end = draw_text(&mut rects, "A1 ?", 10, 0, 14, 2);
    assert_eq!(end - 10 - 2, measure_text("A1 ?", 14, 2));
    assert_eq!(glyph_pixel_size(14), 2);
    assert_eq!(glyph_advance('A', 14), 10);
    assert!(rects.iter().all(|r| r.x >= 10 && r.x + r.w <= end));
}

#[test]
fn unchanged_rectangles_keep_their_buffers() {
    let mut cache = RectCache::default();
    let size = Size { w: 3, h: 4 };
    assert_eq!(cache.next(size, white()), (0, CacheStep::Create));
    cache.finish_frame();
    assert_eq!(cache.next(size, white()), (0, CacheStep::Keep));
    assert_eq!(cache.next(size, white()), (1, CacheStep::Create));
    cache.finish_frame();
    assert_eq!(
        cache.next(Size { w: 4, h: 4 }, white()),
        (0, CacheStep::Update)
    );
    cache.finish_frame();
    assert_eq!(cache.buffers.len(), 1);
}

#[test]
fn colors_are_split_into_channels() {
    assert_eq!(
        hex_to_rgb(0x7aa2f7),
        Rgb {
            r: 0x7a,
            g: 0xa2,
            b: 0xf7
        }
    );
}

#[test]
fn the_bar_floats_within_the_outer_gap() {
    let mut set = WorkspaceSet::default();
    set.create(None);
    let data = bar_data(&set);
    assert_eq!(data.workspaces.len(), 2);
    assert!(data.workspaces[0].active);
    assert_eq!(data.workspaces[1].number, 2);
    let config = BarConfig {
        enabled: true,
        height: 28,
        ..Default::default()
    };
    let layout = bar_elements(&config, 1920, 10, &data, "CPU: 1%");
    assert_eq!(layout.background, Some(Rect::new(10, 10, 1900, 28)));
    assert!(!layout.fg_active.is_empty());
    let strip = layout.background.unwrap();
    for r in layout.fg.iter().chain(&layout.fg_active) {
        assert!(r.x >= strip.x && r.x + r.w <= strip.x + strip.w);
        assert!(r.y >= strip.y && r.y + r.h <= strip.y + strip.h);
    }
    let off = bar_elements(&BarConfig::default(), 1920, 10, &data, "CPU: 1%");
    assert!(off.fg.is_empty() && off.fg_active.is_empty() && off.background.is_none());
}

fn readings(cpu: (u64, u64)) -> Readings {
    Readings {
        clock: Some("14:23 06.08.2026\n".to_string()),
        cpu: Some(cpu),
        ram: Some(45),
        battery: Some((82, true)),
        network: Some(("MyHomeWifi".to_string(), 80)),
    }
}

#[test]
fn the_status_line_shows_what_was_read() {
    let mut bar = Bar::default();
    assert!(bar.due(0));
    bar.tick(0, readings((100, 50)));
    assert!(!bar.due(500));
    assert!(bar.due(1000));
    bar.tick(1000, readings((200, 84)));
    assert_eq!(
        bar.status_text(),
        "CPU: 66% | RAM: 45% | BAT: 82%+ | NETWORK: MYHOMEWIFI 80% | 14:23 - 06.08.2026"
    );
}

#[test]
fn cpu_counters_are_read_from_the_first_line() {
    let content = "cpu  10 20 30 40 50 0 0\ncpu0 1 2 3 4\n";
    let nums = read_cpu_counters(content).unwrap();
    assert_eq!(nums, vec![10, 20, 30, 40, 50, 0, 0]);
    assert_eq!(cpu_total_idle(&nums), (150, 90));
    assert_eq!(read_cpu_counters(""), None);
}

#[test]
fn memory_use_is_a_percentage() {
    let content = "MemTotal:  1000 kB\nMemFree: 1 kB\nMemAvailable:   250 kB\n";
    assert_eq!(read_meminfo(content), Some((1000, 250)));
    assert_eq!(ram_percent(1000, 250), Some(75));
    assert_eq!(ram_percent(0, 0), None);
    assert_eq!(read_meminfo("MemTotal: 5 kB\n"), None);
}

#[test]
fn the_first_battery_counts() {
    let supply = |name: &str, capacity: Option<&str>, status: Option<&str>| PowerSupply {
        name: name.to_string(),
        capacity: capacity.map(str::to_string),
        status: status.map(str::to_string),
    };
    let supplies = vec![
        supply("AC", None, None),
        supply("BAT0", Some("82\n"), Some("Charging\n")),
    ];
    assert_eq!(battery_status(&supplies), Some((82, true)));
    let supplies = vec![supply("BAT1", Some("7\n"), Some("Discharging\n"))];
    assert_eq!(battery_status(&supplies), Some((7, false)));
    assert_eq!(battery_status(&[]), None);
}

#[test]
fn wireless_status_is_read_from_the_tools_output() {
    let listing = "phy#0\n\tInterface wlan0\n\t\tifindex 3\n";
    assert_eq!(wireless_interface(listing), Some("wlan0".to_string()));
    assert_eq!(wireless_interface("nothing"), None);
    let link = "Connected to aa:bb\n\tSSID: My Wifi\n\tsignal: -60 dBm\n";
    assert_eq!(link_status(link), Some(("My Wifi".to_string(), 80)));
    assert_eq!(link_status("Not connected."), None);
}

#[test]
fn an_empty_call_between_two_equal_ones_changes_nothing() {
    let mut batch = GlyphBatch::default();
    let rects = vec![Rect::new(3, 0, 5, 7), Rect::new(0, 2, 2, 9)];
    let first = batch.element(rects.clone(), white(), 1).unwrap();
    assert!(batch.element(Vec::new(), Rgb { r: 1, g: 2, b: 3 }, 2).is_none());
    let second = batch.element(rects.clone(), white(), 3).unwrap();
    assert_eq!((first.id, first.commit), (second.id, second.commit));
    assert_eq!(second.geometry, Rect::new(0, 0, 8, 11));
    let recolored = batch.element(rects, Rgb { r: 1, g: 2, b: 3 }, 4).unwrap();
    assert_eq!(recolored.id, first.id);
    assert_ne!(recolored.commit, first.commit);
}

#[test]
fn a_machine_without_battery_and_network_says_so() {
    let bare = |cpu| Readings {
        battery: None,
        network: None,
        ..readings(cpu)
    };
    let mut bar = Bar::default();
    bar.tick(0, bare((100, 50)));
    bar.tick(1000, bare((300, 100)));
    assert_eq!(
        bar.status_line(),
        "CPU: 75% | RAM: 45% | BAT: -- | NETWORK: -- | 14:23 - 06.08.2026"
    );
    // Too early: nothing is read.
    bar.tick(1999, bare((900, 100)));
    assert!(bar.status_text().starts_with("CPU: 75% | "));
}
