//! The window, the screen and the frame.

use liquid_metal::desk::{
    capture_due, gl_attempts, judge_window, visible_bounds, CtxKind, Fate, Fixup, GeometryWatch,
    Placement, RegionCheck, World, CAPTURE_AFTER, GEOMETRY_POLL_FRAMES, MAX_GEOMETRY_FIXUPS,
};
use liquid_metal::frame::{
    capture_rect, flip_rows, gl_scissor, numbered, pack_balls, pam_header, pixel_bytes,
};
use liquid_metal::groups::{merge_touching, touches, union_all, union_of, MAX_BLOBS};
use liquid_metal::overlay::{desktop_hull, is_pointer_on, region_bounds, DisplayInfo};
use liquid_metal::overlay_mac;
use liquid_metal::overlay_mac::{FrameWork, Mac};
use liquid_metal::overlay_win;
use liquid_metal::overlay_win::{
    click_through_style, dwm_answer, overlay_style, Win, EX_STYLE_ON, EX_TRANSPARENT,
};
use liquid_metal::overlay_x11;
use liquid_metal::overlay_x11::{
    find_argb_visual, rects_eq, window_id, DepthInfo, MonitorInfo, Rectangle, StateAtoms,
    VisualInfo, X11,
};
use liquid_metal::physics::{Ball, Bounds, Vec2};
use liquid_metal::region::{hit_rects, hit_test, Grid};
use liquid_metal::single::Single;

fn single(x: f32) -> Single {
    Single { bits: x.to_bits() }
}

fn rect(x0: f32, y0: f32, x1: f32, y1: f32) -> Bounds {
    Bounds { x0: single(x0), y0: single(y0), x1: single(x1), y1: single(y1) }
}

fn ball(x: f32) -> Ball {
    Ball { p: Vec2 { x: single(x), y: single(0.0) }, r: single(1.0), w: single(2.0) }
}

fn world(x0: i64, y0: i64, x1: i64, y1: i64) -> World {
    World { x0, y0, x1, y1 }
}

#[test]
fn the_world_is_the_visible_part_of_the_window() {
    let screen = (3840, 1080);
    assert_eq!(visible_bounds((0, 0), screen, screen), world(0, 0, 3840, 1080));
    // Moved to the second monitor: the right half sticks out.
    assert_eq!(visible_bounds((1920, 0), screen, screen), world(0, 0, 1920, 1080));
    assert_eq!(visible_bounds((-100, -50), screen, screen), world(100, 50, 3840, 1080));
    // Hardly anything visible: the whole window, rather than a box nothing fits in.
    assert_eq!(visible_bounds((3800, 0), screen, screen), world(0, 0, 3840, 1080));
}

#[test]
fn the_window_system_knows_best() {
    let asked = Placement { x: 0, y: 0, w: 3840, h: 1080 };
    let got = Placement { x: 1920, y: 0, w: 1920, h: 1080 };
    let none = Placement { x: 5, y: 5, w: 0, h: 9 };
    assert_eq!(asked.trust(Some(got)), got);
    assert_eq!(asked.trust(Some(none)), asked);
    assert_eq!(asked.trust(None), asked);
    assert!(asked.is_news(got) && !asked.is_news(asked) && !asked.is_news(none));
}

#[test]
fn the_geometry_is_polled_for_a_while_and_asked_for_a_handful_of_times() {
    let mut w = GeometryWatch::new();
    for _ in 0..GEOMETRY_POLL_FRAMES {
        assert!(w.poll_due(false));
    }
    assert!(!w.poll_due(false));
    assert!(w.poll_due(true));
    assert_eq!(w.fixup((0, 0)), Fixup::Leave);
    for _ in 1..MAX_GEOMETRY_FIXUPS {
        assert_eq!(w.fixup((1920, 0)), Fixup::Ask);
    }
    assert_eq!(w.fixup((1920, 0)), Fixup::AskLast);
    assert_eq!(w.fixup((1920, 0)), Fixup::Leave);
}

#[test]
fn transparency_is_tried_for_in_order() {
    let all = gl_attempts(true, Some(0x21));
    let tried: Vec<_> = all.iter().map(|a| (a.visual, a.ctx)).collect();
    assert_eq!(
        tried,
        [
            (Some(0x21), CtxKind::Core33),
            (Some(0x21), CtxKind::LegacyCompat),
            (None, CtxKind::Core33)
        ]
    );
    assert_eq!(gl_attempts(false, Some(0x21)).len(), 1);
    assert_eq!(judge_window(32, false, true), Fate::Keep);
    assert_eq!(judge_window(24, false, true), Fate::Discard);
    assert_eq!(judge_window(24, true, true), Fate::KeepOpaque);
    assert_eq!(judge_window(0, true, false), Fate::Keep);
}

// ---------------------------------------------------------------------------

#[test]
fn the_cover_is_the_metal_grown_by_one_cell() {
    let g = Grid::over(0, 0, 1, 1).unwrap();
    assert_eq!((g.x0, g.y0, g.w, g.h), (-1, -1, 3, 3));
    let mut mask = vec![vec![false; 3]; 3];
    mask[1][1] = true;
    let rects = hit_rects(&g, &mask);
    assert_eq!(rects, [(-14, -14, 42, 14), (-14, 0, 42, 14), (-14, 14, 42, 14)]);
    assert!(hit_test(&rects, 0, 0) && hit_test(&rects, -14, -14) && hit_test(&rects, 27, 27));
    assert!(!hit_test(&rects, 28, 0) && !hit_test(&rects, -15, 0));
    assert!(hit_rects(&g, &vec![vec![false; 3]; 3]).is_empty());
    assert_eq!(Grid::over(0, 0, -2, 5), None);
    assert_eq!(Grid::over(0, 0, 5000, 5), None);
}

#[test]
fn separate_runs_get_separate_rectangles() {
    let g = Grid { x0: 0, y0: 0, w: 7, h: 1 };
    let rects = hit_rects(&g, &vec![vec![true, false, false, false, false, false, true]]);
    assert_eq!(rects, [(0, 0, 28, 14), (70, 0, 28, 14)]);
}

#[test]
fn blobs_that_touch_flow_together() {
    let a = rect(0.0, 0.0, 10.0, 10.0);
    let b = rect(10.0, 0.0, 20.0, 10.0);
    let c = rect(50.0, 0.0, 60.0, 10.0);
    let d = rect(19.0, 0.0, 51.0, 10.0);
    assert!(touches(a, b) && touches(b, a) && !touches(a, c));
    assert_eq!(union_of(a, c), rect(0.0, 0.0, 60.0, 10.0));

    let mut groups = vec![(a, vec![ball(1.0)]), (c, vec![ball(3.0)]), (b, vec![ball(2.0)])];
    merge_touching(&mut groups);
    assert_eq!(groups.len(), 2);
    assert_eq!(groups[0], (union_of(a, b), vec![ball(1.0), ball(2.0)]));
    assert_eq!(groups[1], (c, vec![ball(3.0)]));

    // A third that reaches both brings them all together.
    groups.push((d, vec![ball(4.0)]));
    merge_touching(&mut groups);
    assert_eq!(groups.len(), 1);
    assert_eq!(groups[0].0, rect(0.0, 0.0, 60.0, 10.0));
    assert_eq!(groups[0].1.len(), 4);
    assert_eq!(union_all(&groups), groups[0].0);
    assert_eq!(union_all(&vec![]), rect(0.0, 0.0, 0.0, 0.0));
}

#[test]
fn a_clump_too_large_for_one_draw_stays_apart() {
    let a = rect(0.0, 0.0, 10.0, 10.0);
    let mut groups = vec![(a, vec![ball(1.0); 9]), (a, vec![ball(2.0); 9])];
    merge_touching(&mut groups);
    assert_eq!(groups.len(), 2);
    let mut groups = vec![(a, vec![ball(1.0); 9]), (a, vec![ball(2.0); MAX_BLOBS - 9])];
    merge_touching(&mut groups);
    assert_eq!(groups.len(), 1);
}

#[test]
fn balls_go_to_the_shader_as_four_numbers() {
    let out = pack_balls(&vec![ball(5.0)]);
    assert_eq!(out, [single(5.0), single(0.0), single(1.0), single(2.0)]);
    assert_eq!(pack_balls(&vec![ball(5.0); MAX_BLOBS + 3]).len(), 4 * MAX_BLOBS);
}

#[test]
fn the_framebuffer_is_upside_down() {
    assert_eq!(gl_scissor(100, (3, 10, 20, 30)), Some((3, 60, 20, 30)));
    assert_eq!(gl_scissor(100, (3, 10, 0, 30)), None);
    assert_eq!(pixel_bytes(2, 3), 24);
    assert_eq!(pixel_bytes(-2, 3), 0);
    assert_eq!(flip_rows(&vec![1, 2, 3, 4, 5, 6], 2, 3), [5, 6, 3, 4, 1, 2]);
    assert_eq!(capture_rect((-5, 10, 50, 500), 40, 300), (0, 10, 40, 290));
    assert_eq!(
        pam_header(2, 3),
        "P7\nWIDTH 2\nHEIGHT 3\nDEPTH 4\nMAXVAL 255\nTUPLTYPE RGB_ALPHA\nENDHDR\n"
    );
}

#[test]
fn source_lines_are_numbered() {
    for src in ["", "a", "a\n", "a\r\nb\n\nc", "x\r"] {
        let want: Vec<String> =
            src.lines().enumerate().map(|(i, l)| format!("{:>4} | {l}", i + 1)).collect();
        assert_eq!(numbered(src), want.join("\n"), "{src:?}");
    }
}

// ---------------------------------------------------------------------------

fn display(name: &str, x: i32, y: i32, width: u32, height: u32, primary: bool) -> DisplayInfo {
    DisplayInfo { name: name.into(), x, y, width, height, primary }
}

fn desk() -> Vec<DisplayInfo> {
    vec![display("left", -1920, 0, 1920, 1080, false), display("main", 0, -200, 2560, 1440, true)]
}

#[test]
fn the_desktop_is_around_all_displays() {
    assert_eq!(desktop_hull(&desk()), ((-1920, -200), (4480, 1440)));
    assert_eq!(
        region_bounds(&vec![(10, 20, 30, 40), (-5, 50, 10, 60000)]),
        (-5, 20, 40, 60050)
    );
}

#[test]
fn a_lost_pointer_is_on_nothing() {
    let rects = vec![(10, 10, 5, 5)];
    assert!(is_pointer_on(&rects, Some((-90, 110)), (-100, 100)));
    assert!(!is_pointer_on(&rects, Some((-85, 110)), (-100, 100)));
    assert!(!is_pointer_on(&rects, None, (0, 0)));
}

#[test]
fn a_wrong_video_driver_is_refused() {
    assert_eq!(overlay_x11::check_video_driver("x11"), Ok(()));
    assert_eq!(
        overlay_x11::check_video_driver("wayland").unwrap_err(),
        "SDL chose the \"wayland\" video driver, but liquidMetal needs \"x11\" here.\n\
         The overlay relies on X11 features (ARGB visuals, EWMH, XShape) that have no \
         SDL-reachable equivalent on Wayland.\n\
         Check that an X server or XWayland is running on $DISPLAY."
    );
    assert_eq!(overlay_mac::check_video_driver("cocoa"), Ok(()));
    assert!(overlay_mac::check_video_driver("dummy")
        .unwrap_err()
        .starts_with("SDL chose the \"dummy\" video driver, but the macOS overlay needs \"cocoa\".\n"));
    assert_eq!(overlay_win::check_video_driver("windows"), Ok(()));
    assert!(overlay_win::check_video_driver("")
        .unwrap_err()
        .starts_with("SDL chose the \"\" video driver, but the Windows overlay needs \"windows\".\n"));
}

fn server() -> X11 {
    X11::new(
        3840,
        1080,
        (1, 1),
        vec![MonitorInfo {
            name: "DP-1".into(),
            x: 0,
            y: 0,
            width: 1920,
            height: 1080,
            primary: true,
        }],
        Some(0x6b),
    )
}

#[test]
fn an_x_window_id_has_thirty_two_bits() {
    let mut x = server();
    assert_eq!(x.win().unwrap_err(), "no X window has been attached yet");
    assert_eq!(x.set_window(0).unwrap_err(), "SDL reported a null X window id");
    assert_eq!(
        x.set_window(0x1_0000_0000).unwrap_err(),
        "SDL reported an X window id that is not 32-bit: 0x100000000"
    );
    assert_eq!(x.set_window(0x3a0_0007), Ok(()));
    assert_eq!(x.win(), Ok(0x3a0_0007));
    assert_eq!(window_id(7), Ok(7));
    assert_eq!(window_id(1 << 32).unwrap_err(), "not a 32-bit X window id: 0x100000000");
    assert_eq!((x.desktop_size(), x.desktop_origin()), ((3840, 1080), (0, 0)));
}

#[test]
fn an_unchanged_input_region_is_not_sent_again() {
    let mut x = server();
    let rects = vec![(1, 2, 3, 4), (5, 5, 0, 9), (-40000, 40000, 70000, 1)];
    let sent = x.set_input_rects(&rects).expect("the first one is sent");
    assert_eq!(
        sent,
        [
            Rectangle { x: 1, y: 2, width: 3, height: 4 },
            Rectangle { x: -32768, y: 32767, width: 65535, height: 1 }
        ]
    );
    assert!(rects_eq(&sent, &sent) && !rects_eq(&sent, &sent[1..]));
    x.uploaded(sent);
    assert!(x.set_input_rects(&rects).is_none());
    assert!(x.set_input_rects(&vec![(1, 2, 3, 5)]).is_some());
    assert_eq!(x.full_region(), [Rectangle { x: 0, y: 0, width: 3840, height: 1080 }]);
    assert_eq!(x.set_input_rects(&vec![]), Some(vec![]));
}

#[test]
fn a_visual_with_an_alpha_channel_is_found() {
    let opaque =
        VisualInfo { id: 1, true_color: true, red_mask: 0xff0000, green_mask: 0xff00, blue_mask: 0xff };
    let direct = VisualInfo { id: 2, true_color: false, ..opaque };
    let deep = VisualInfo { id: 3, red_mask: 0x3ff0_0000, ..opaque };
    let good = VisualInfo { id: 4, ..opaque };
    let depths = vec![
        DepthInfo { depth: 24, visuals: vec![opaque] },
        DepthInfo { depth: 32, visuals: vec![direct, deep] },
        DepthInfo { depth: 32, visuals: vec![good] },
    ];
    assert_eq!(find_argb_visual(&depths), Some(4));
    assert_eq!(find_argb_visual(&vec![DepthInfo { depth: 24, visuals: vec![opaque] }]), None);
}

#[test]
fn the_window_manager_is_told() {
    let atoms =
        StateAtoms { above: 11, sticky: 12, skip_taskbar: 13, skip_pager: 14, demands_attention: 15 };
    assert_eq!(atoms.initial(), [11, 12, 13, 14]);
    assert_eq!(atoms.messages(), [[1, 11, 12, 1, 0], [1, 13, 14, 1, 0], [0, 15, 0, 1, 0]]);
    let h = server().size_hints();
    assert_eq!(h[0], 1 | 2 | 4 | 8 | 16 | 32 | 512);
    assert_eq!(&h[1..9], &[0, 0, 3840, 1080, 3840, 1080, 3840, 1080]);
    assert_eq!(&h[9..17], &[0; 8]);
    assert_eq!(h[17], 10);
}

#[test]
fn the_x11_overlay_describes_itself() {
    let lines = server().describe(0x3a0_0007, Ok((0, 0, 3840, 1080)), Ok(32));
    let want = [
        ("window XID", "0x03a00007 (60817415)"),
        ("window on screen", "3840 x 1080 at (0, 0)  [matches the virtual screen]"),
        ("X window depth", "32  <-- ARGB visual 0x6b, alpha channel present"),
        ("XShape version", "1.1"),
        ("X virtual screen", "3840 x 1080 at (0, 0)"),
        ("monitor", "DP-1          1920 x 1080  at (    0,     0)  [primary]"),
        ("input region", "empty (whole window click-through)"),
    ];
    assert_eq!(lines.len(), want.len());
    for (got, want) in lines.iter().zip(want) {
        assert_eq!((got.0, got.1.as_str()), want);
    }
    let mut bare = server();
    bare.monitors.clear();
    bare.argb_visual = None;
    let lines = bare.describe(1, Err("gone".into()), Ok(24));
    assert_eq!(lines[1].1, "unknown (gone)");
    assert_eq!(lines[2].1, "24  <-- NO ALPHA CHANNEL: the overlay will be opaque");
    assert_eq!(lines[5], ("monitors", "(RandR 1.5 GetMonitors unavailable)".to_string()));
    let lines = bare.describe(1, Ok((1920, 0, 3840, 1080)), Err("gone".into()));
    assert_eq!(lines[1].1, "3840 x 1080 at (1920, 0)  <-- NOT the full virtual screen");
    assert_eq!(lines[2].1, "unknown (gone)");
    assert_eq!(
        bare.describe(1, Err("gone".into()), Ok(32))[2].1,
        "32  <-- ARGB visual (SDL's choice), alpha channel present"
    );
}

fn ms(n: u64) -> u64 {
    n * 1_000_000
}

#[test]
fn the_mac_overlay_keeps_to_one_display() {
    let mut m = Mac::connect().unwrap();
    assert_eq!(m.probe_desktop(vec![], false).unwrap_err(), "SDL reports no displays at all");
    assert_eq!(m.probe_desktop(desk(), false), Ok(()));
    assert_eq!((m.desktop_origin(), m.desktop_size()), ((0, -200), (2560, 1440)));
    assert_eq!(m.monitor_rects(), [(-1920, 200, 1920, 1080), (0, 0, 2560, 1440)]);
    assert_eq!(m.probe_desktop(desk(), true), Ok(()));
    assert_eq!((m.desktop_origin(), m.desktop_size()), ((-1920, -200), (4480, 1440)));
    assert_eq!(m.primary_height(), 1440);
    assert_eq!(m.window_rect(Some((0, -200, 2560, 1440))), Ok((1920, 0, 2560, 1440)));
    assert_eq!(m.window_rect(None), Ok((0, 0, 4480, 1440)));
    assert_eq!(m.full_screen_frame().unwrap_err(), "the overlay has no NSWindow yet");
    m.set_window(1).unwrap();
    assert_eq!(m.full_screen_frame(), Ok((-1920, 200, 4480, 1440)));
    assert_eq!(m.depth_of(1), Ok(32));
}

#[test]
fn the_mac_overlay_reasserts_itself_on_schedule() {
    let mut m = Mac::connect().unwrap();
    let idle = FrameWork { reasserts: 0, geometry: false, read_frame: false };
    assert_eq!(m.on_frame(ms(5000)), idle);
    m.shown(ms(1000));
    let mut asked = Vec::new();
    let mut done = 0;
    for n in 1..=40u64 {
        let w = m.on_frame(ms(1000) + ms(100) * (n - 1));
        done += w.reasserts;
        if w.geometry {
            asked.push(n);
        }
        assert!(w.read_frame);
        let due = [200, 500, 1000, 2000, 4000].iter().filter(|d| **d <= 100 * (n - 1)).count();
        assert_eq!(done as usize, due);
    }
    assert_eq!(asked, [1, 3, 10, 30]);
    assert_eq!(m.on_frame(ms(99_000)).reasserts, 1);
    assert_eq!(m.on_frame(ms(99_001)).reasserts, 0);
}

#[test]
fn the_mac_window_is_clickable_only_on_the_metal() {
    let mut m = Mac::connect().unwrap();
    let rects = vec![(10, 10, 5, 5)];
    assert_eq!(m.set_input_rects(rects.clone(), Some((0, 0))), Ok(false));
    assert_eq!(
        m.set_input_rects(rects.clone(), Some((12, 12))).unwrap_err(),
        "the overlay has no NSWindow yet"
    );
    assert_eq!(m.set_window(0).unwrap_err(), "the NSWindow handle is null");
    m.set_window(77).unwrap();
    assert_eq!(m.read_back_input_region(), Ok(vec![]));
    assert_eq!(m.set_input_rects(rects.clone(), Some((12, 12))), Ok(true));
    assert!(!m.click_through);
    assert_eq!(m.read_back_input_region(), Ok(vec![(10, 10, 5, 5)]));
    assert_eq!(m.set_input_rects(rects.clone(), Some((12, 12))), Ok(false));
    // Cocoa put the window somewhere else.
    m.note_frame(Some((100, 100, 10, 10)));
    assert_eq!(m.set_input_rects(rects.clone(), Some((12, 12))), Ok(true));
    assert!(m.click_through);
    m.note_frame(None);
    assert_eq!(m.set_input_rects(rects.clone(), Some((112, 112))), Ok(true));
    assert_eq!(m.set_input_rects(rects.clone(), None), Ok(true));
    assert_eq!(m.set_input_region_empty(), Ok(()));
    assert!(m.rects.is_empty());
    assert_eq!(m.restore_input_region(), Ok(()));
}

#[test]
fn the_mac_overlay_describes_itself() {
    let mut m = Mac::connect().unwrap();
    m.probe_desktop(desk(), false).unwrap();
    let lines = m.describe(0xab, None);
    assert_eq!(lines[0], ("NSWindow", "0x00000000000000ab".to_string()));
    assert_eq!(lines[1], ("desktop", "2560 x 1440 at (0, -200)".to_string()));
    assert_eq!(lines[2].1, "NOT SET  <-- the overlay will be a black rectangle");
    assert_eq!(lines[3], ("window level", "25 (NSStatusWindowLevel)".to_string()));
    assert_eq!(lines[4].1, "not readable");
    assert_eq!(lines[5].1, "left          1920 x 1080  at (-1920,     0)");
    assert_eq!(lines[6].1, "main          2560 x 1440  at (    0,  -200)  [primary]");
    assert_eq!(lines.len(), 8);
    m.surface_ready();
    let lines = m.describe(0xab, Some((0, -200, 2560, 1440)));
    assert_eq!(
        lines[2].1,
        format!(
            "0 (NSOpenGLCPSurfaceOpacity), layer-backed, window alpha {}, re-asserted at {:?} ms",
            0.99,
            [200, 500, 1000, 2000, 4000]
        )
    );
    assert_eq!(lines[4].1, "2560x1440 at (0, -200) — the whole desktop, as asked");
    assert_eq!(
        m.describe(0xab, Some((0, 0, 2560, 1440)))[4].1,
        "2560x1440 at (0, 0)  <-- NOT the whole desktop (2560x1440 at (0, -200)); macOS confined \
         the overlay, so the blob is confined with it"
    );
}

#[test]
fn the_windows_overlay_only_touches_its_own_style_bits() {
    assert_eq!(overlay_style(0x1), 0x1 | EX_STYLE_ON);
    assert_eq!(EX_STYLE_ON, 0x8 | 0x80 | 0x0800_0000);
    assert_eq!(click_through_style(0x41, true), 0x61);
    assert_eq!(click_through_style(0x61, false), 0x41);
    assert_eq!(click_through_style(-1, false), !EX_TRANSPARENT);
}

#[test]
fn the_windows_overlay_asks_dwm_until_it_agrees() {
    assert_eq!(dwm_answer(0), Ok(()));
    assert_eq!(dwm_answer(1), Ok(()));
    assert_eq!(
        dwm_answer(-0x7ffa_0000).unwrap_err(),
        format!(
            "DwmEnableBlurBehindWindow failed (HRESULT {:#010x}); the overlay will be an opaque \
             rectangle. Desktop composition has to be on.",
            -0x7ffa_0000i32
        )
    );
    let mut w = Win::connect().unwrap();
    assert_eq!(w.composition, Err("not attempted yet".to_string()));
    assert_eq!(w.on_frame(single(9.0)), 0);
    w.on_gl_context_ready().unwrap();
    assert_eq!(w.on_frame(single(9.0)), 0);
    w.set_window(5).unwrap();
    w.composed(Err("no".into()));
    assert_eq!(w.on_frame(single(0.19)), 0);
    assert_eq!(w.on_frame(single(0.2)), 1);
    w.recomposed(Err("still no".into()));
    assert_eq!(w.composition, Err("no".to_string()));
    assert_eq!(w.on_frame(single(1.5)), 2);
    w.recomposed(Ok(()));
    w.recomposed(Err("again no".into()));
    assert_eq!(w.composition, Ok(()));
    assert_eq!(w.on_frame(single(100.0)), 2);
    assert_eq!(w.on_frame(single(200.0)), 0);
}

#[test]
fn the_windows_overlay_covers_all_displays() {
    let mut w = Win::connect().unwrap();
    assert_eq!(w.probe_desktop(vec![]).unwrap_err(), "SDL reports no displays at all");
    w.probe_desktop(desk()).unwrap();
    assert_eq!((w.desktop_origin(), w.desktop_size()), ((-1920, -200), (4480, 1440)));
    assert_eq!(w.window_rect(), Ok((0, 0, 4480, 1440)));
    assert_eq!(w.set_window(0).unwrap_err(), "the HWND is null");
    let rects = vec![(10, 10, 5, 5)];
    assert_eq!(
        w.set_input_rects(rects.clone(), Some((-1908, -188))).unwrap_err(),
        "the overlay has no HWND yet"
    );
    w.set_window(5).unwrap();
    assert_eq!(w.set_input_rects(rects.clone(), Some((-1908, -188))), Ok(true));
    assert_eq!(w.read_back_input_region(), Ok(vec![(10, 10, 5, 5)]));
    assert_eq!(w.set_input_rects(rects, None), Ok(true));
    assert_eq!(w.set_input_region_empty(), Ok(()));
    assert_eq!(w.restore_input_region(), Ok(()));
    assert!(w.click_through);
    let lines = w.describe(0xab);
    assert_eq!(lines[0], ("HWND", "0x00000000000000ab".to_string()));
    assert_eq!(lines[2].1, "FAILED  <-- the overlay will be opaque: not attempted yet");
    assert_eq!(lines.len(), 7);
    w.composed(Ok(()));
    assert_eq!(
        w.describe(0xab)[2].1,
        "on (blur-behind, empty region) — the window composites with alpha"
    );
}

#[test]
fn the_region_is_read_back_once_after_each_move() {
    let mut c = RegionCheck::new();
    assert!(!c.after_update(false) && c.after_update(true) && !c.after_update(true));
    c.moved();
    assert!(!c.after_update(false) && c.after_update(true) && !c.after_update(true));
}

#[test]
fn the_picture_is_taken_after_a_few_frames() {
    assert!(!capture_due(CAPTURE_AFTER - 1) && capture_due(CAPTURE_AFTER));
    assert_eq!(CAPTURE_AFTER, 3);
}
