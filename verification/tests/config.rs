use bspwm_cyberquote::config::{
    build_stylesheet, is_primary_geometry, monitor_geometry, monitor_layout, ConfigMonitorInfo,
    MonitorsConfig, Orientation, QuotesConfig, StylesheetInputs, config_candidates, config_step,
    primary_monitors, ConfigStep,
};
use bspwm_cyberquote::cyberhtml::default_css_vars;

/// The stylesheet inputs of the sample config used by the stylesheet tests:
///
/// [display] font = "Hack, monospace", font_size = 22, opacity = 0.92,
///   background_color = "#050508", foreground_color = "#ff5cf0"
/// [accent] cyan = "#00ffcc", magenta = "#ff0088", orange = "#ffb347",
///   glitch_intensity = 0.45, glitch_duration = 0.30, glitch_interval = 4.0,
///   scanline_opacity = 0.20, scanline_steps = 120, scanline_lines = 360,
///   scanline_size_rem = 0.07, crt_curvature = 0.18
fn sample_inputs() -> StylesheetInputs {
    let font_size: f32 = 22.0;
    let glitch_intensity: f32 = 0.45;
    let glitch_duration: f32 = 0.30;
    let glitch_interval: f32 = 4.0;
    let scanline_opacity: f32 = 0.20;
    let scanline_size_rem: f32 = 0.07;
    StylesheetInputs {
        background_color: "#050508".to_string(),
        foreground_color: "#ff5cf0".to_string(),
        accent_cyan: "#00ffcc".to_string(),
        accent_magenta: "#ff0088".to_string(),
        accent_orange: "#ffb347".to_string(),
        font: "Hack, monospace".to_string(),
        font_size: format!("{}", font_size),
        glitch_intensity: format!("{}", glitch_intensity * 6.0 / 0.35),
        glitch_duration: format!("{}", glitch_duration),
        glitch_interval_ms: (glitch_interval * 1000.0) as u32,
        scanline_opacity: format!("{}", scanline_opacity.clamp(0.0, 1.0)),
        scanline_lines: 360,
        scanline_size_rem: format!("{}", scanline_size_rem.clamp(0.02, 0.5)),
        scanline_steps: 120,
    }
}

#[test]
fn build_stylesheet_emits_expected_css_variables() {
    let css = build_stylesheet(&sample_inputs());
    let required = [
        "--bg", "--fg", "--accent-cyan", "--accent-magenta",
        "--glow-cyan-1", "--glow-cyan-2", "--glow-cyan-3",
        "--glow-magenta-1", "--glow-magenta-2", "--glow-magenta-3",
        "--font-family", "--font-size", "--letter-spacing",
        "--line-height", "--max-width",
        "--typewriter-ms", "--typewriter-ease", "--typewriter-slide",
        "--typewriter-opacity-start", "--typewriter-opacity-end",
        "--cursor-char", "--cursor-blink", "--cursor-color",
        "--glitch-intensity", "--glitch-ms", "--glitch-duration",
        "--glitch-color-cyan", "--glitch-color-magenta",
        "--glitch-jitter",
        "--scanline-opacity", "--scanline-color", "--scanline-size",
        "--scanline-gap", "--scanline-speed", "--scanline-steps",
        "--crt-perspective", "--crt-radius",
        "--crt-vignette-stops", "--crt-vignette-blur",
        "--vignette-edge", "--center-padding", "--max-quote-chars",
    ];
    for v in &required {
        assert!(
            css.contains(&format!("{}:", v)),
            "stylesheet should contain {}: — found:\n{css}",
            v
        );
    }
}

#[test]
fn build_stylesheet_includes_correct_color_values() {
    let css = build_stylesheet(&sample_inputs());
    assert!(css.contains("#00ffcc"), "should emit --neon-cyan #00ffcc");
    assert!(css.contains("#ff0088"), "should emit --neon-magenta #ff0088");
    assert!(css.contains("#050508"), "should emit --bg #050508");
    assert!(css.contains("#ff5cf0"), "should emit --fg #ff5cf0");
}

#[test]
fn build_stylesheet_includes_correct_font_size() {
    let css = build_stylesheet(&sample_inputs());
    assert!(css.contains("22px"), "should emit --font-size 22px");
}

#[test]
fn build_stylesheet_includes_scanline_mesh_values() {
    let css = build_stylesheet(&sample_inputs());
    assert!(css.contains("--scanline-size:0.07rem"));
    assert!(css.contains("--scanline-gap:calc((100vh / 360) - 0.07rem)"));
}

#[test]
fn build_stylesheet_does_not_emit_obsolete_opacity() {
    let css = build_stylesheet(&sample_inputs());
    // the page does not consume --opacity, so the stylesheet does not emit it.
    assert!(!css.contains("--opacity:"));
}

#[test]
fn monitor_geometry_normal_is_identity() {
    let m = ConfigMonitorInfo {
        width: 1920,
        height: 1080,
        x: 0,
        y: 0,
        rotation: Orientation::Normal,
    };
    let g = monitor_geometry(m);
    assert_eq!(g.width, 1920);
    assert_eq!(g.height, 1080);
    assert_eq!(g.x, 0);
    assert_eq!(g.y, 0);
    assert!(!g.needs_rotation);
    assert_eq!(g.content_rotation, Orientation::Normal);
}

#[test]
fn monitor_geometry_portrait_r90() {
    let m = ConfigMonitorInfo {
        width: 1080,
        height: 1920,
        x: 0,
        y: 0,
        rotation: Orientation::R90,
    };
    let g = monitor_geometry(m);
    assert_eq!(g.width, 1080);
    assert_eq!(g.height, 1920);
    assert!(g.needs_rotation);
    assert_eq!(g.content_rotation, Orientation::R270);
}

#[test]
fn monitor_geometry_portrait_r270() {
    let m = ConfigMonitorInfo {
        width: 1080,
        height: 1920,
        x: 0,
        y: 0,
        rotation: Orientation::R270,
    };
    let g = monitor_geometry(m);
    assert_eq!(g.width, 1080);
    assert_eq!(g.height, 1920);
    assert!(g.needs_rotation);
    assert_eq!(g.content_rotation, Orientation::R90);
}

#[test]
fn monitor_layout_returns_one_per_monitor() {
    let m1 = ConfigMonitorInfo {
        width: 1920,
        height: 1080,
        x: 0,
        y: 0,
        rotation: Orientation::Normal,
    };
    let m2 = ConfigMonitorInfo {
        width: 1920,
        height: 1080,
        x: 1920,
        y: 0,
        rotation: Orientation::Normal,
    };
    let layouts = monitor_layout(&[m1, m2]);
    assert_eq!(layouts.len(), 2);
    assert_eq!(layouts[0].width, 1920);
    assert_eq!(layouts[0].height, 1080);
    assert_eq!(layouts[0].x, 0);
    assert_eq!(layouts[1].x, 1920);
}

#[test]
fn orientation_is_portrait() {
    assert!(Orientation::R90.is_portrait());
    assert!(Orientation::R270.is_portrait());
    assert!(!Orientation::Normal.is_portrait());
    assert!(!Orientation::R180.is_portrait());
}

#[test]
fn monitor_geometry_r180_keeps_content_upright() {
    let m = ConfigMonitorInfo { width: 1920, height: 1080, x: -1920, y: 200, rotation: Orientation::R180 };
    let g = monitor_geometry(m);
    assert!(!g.needs_rotation);
    assert_eq!(g.content_rotation, Orientation::Normal);
    assert_eq!((g.x, g.y, g.width, g.height), (-1920, 200, 1920, 1080));
}

#[test]
fn monitor_geometry_tall_monitor_without_rotation_turns_content() {
    let m = ConfigMonitorInfo { width: 1080, height: 1920, x: 0, y: 0, rotation: Orientation::Normal };
    let g = monitor_geometry(m);
    assert!(g.needs_rotation);
    assert_eq!(g.content_rotation, Orientation::R270);
    assert_eq!((g.width, g.height), (1080, 1920));
    let square = ConfigMonitorInfo { width: 1000, height: 1000, x: 0, y: 0, rotation: Orientation::Normal };
    assert!(!monitor_geometry(square).needs_rotation);
}

#[test]
fn content_rotation_undone_by_turning_twice() {
    for o in [Orientation::Normal, Orientation::R90, Orientation::R180, Orientation::R270] {
        let back = o.content_rotate_for_legibility().content_rotate_for_legibility();
        assert_eq!(back, o);
        assert_eq!(o.content_rotate_for_legibility().is_portrait(), o.is_portrait());
    }
}

#[test]
fn monitor_layout_of_no_monitors_is_empty() {
    assert!(monitor_layout(&[]).is_empty());
}

#[test]
fn quotes_and_monitor_settings_defaults() {
    let q = QuotesConfig::defaults();
    assert_eq!(q.source, "quotes.json");
    assert_eq!(q.cycle_interval_minutes, 15);
    assert_eq!(q.picker, "random");
    let d = QuotesConfig::default();
    assert_eq!(d.source, QuotesConfig::default_source());
    assert_eq!(d.cycle_interval_minutes, QuotesConfig::default_cycle_interval_minutes());
    assert_eq!(d.picker, QuotesConfig::default_picker());
    let m = MonitorsConfig::defaults();
    assert_eq!(m.behavior, "one_per_monitor");
    assert!(!m.primary_only);
    assert_eq!(MonitorsConfig::default().behavior, MonitorsConfig::default_behavior());
    assert_eq!(MonitorsConfig::default_primary_only(), false);
}

#[test]
fn stylesheet_exact_text_and_clamps() {
    let mut t = sample_inputs();
    t.background_color = "  #123456 \t".to_string();
    t.font = "My \"Font\"".to_string();
    t.scanline_lines = 0;
    t.scanline_steps = 1;
    t.glitch_interval_ms = 6500;
    let css = build_stylesheet(&t);
    assert!(css.starts_with("--bg:#123456;--fg:#ff5cf0;--accent-cyan:#00ffcc;"));
    assert!(css.contains(";--font-family:\"My 'Font'\";"));
    assert!(css.contains(";--glitch-ms:6500ms;"));
    assert!(css.contains(";--glitch-duration:0.3s;"));
    assert!(css.contains(";--scanline-gap:calc((100vh / 1) - 0.07rem);"));
    assert!(css.contains(";--scanline-steps:2;"));
    assert!(css.ends_with(";--center-padding:36px;--max-quote-chars:900;"));
    t.scanline_lines = 5000;
    t.scanline_steps = 3;
    let css = build_stylesheet(&t);
    assert!(css.contains(";--scanline-gap:calc((100vh / 2000) - 0.07rem);"));
    assert!(css.contains(";--scanline-steps:3;"));
}

#[test]
fn stylesheet_declares_the_theme_properties_in_order() {
    fn names(css: &str) -> Vec<String> {
        css.split(';')
            .filter(|d| !d.is_empty())
            .map(|d| d.split(':').next().unwrap().to_string())
            .collect()
    }
    let css = build_stylesheet(&sample_inputs());
    assert_eq!(names(&css), names(&default_css_vars()));
    assert_eq!(names(&css).len(), 43);
}

#[test]
fn primary_monitor_owns_origin() {
    assert!(is_primary_geometry(0, 0, 1920, 1080));
    assert!(is_primary_geometry(-100, -5, 1920, 1080));
    assert!(!is_primary_geometry(1920, 0, 1920, 1080));
    assert!(!is_primary_geometry(-1920, 0, 1920, 1080));
    assert!(!is_primary_geometry(0, 1, 1920, 1080));
}

#[test]
fn config_candidates_user_file_then_local_file() {
    let c = config_candidates("/home/neo");
    assert_eq!(c, vec![
        "/home/neo/.config/bspwm-cyberquote/config.toml".to_string(),
        "config.toml".to_string(),
    ]);
}

#[test]
fn config_step_uses_first_loaded_and_fails_with_last() {
    assert_eq!(config_step(0, 2, true), ConfigStep::Use(0));
    assert_eq!(config_step(0, 2, false), ConfigStep::TryNext(1));
    assert_eq!(config_step(1, 2, true), ConfigStep::Use(1));
    assert_eq!(config_step(1, 2, false), ConfigStep::Fail(1));
    assert_eq!(config_step(0, 1, false), ConfigStep::Fail(0));
}

#[test]
fn primary_monitors_keep_origin_owners_in_order() {
    let m = |x: i32, y: i32| ConfigMonitorInfo { width: 1920, height: 1080, x, y, rotation: Orientation::Normal };
    assert_eq!(primary_monitors(&vec![m(1920, 0), m(0, 0), m(-1920, 0)]), vec![1]);
    assert_eq!(primary_monitors(&vec![m(-10, -10), m(0, 0)]), vec![0, 1]);
    assert!(primary_monitors(&vec![m(1, 0)]).is_empty());
    assert!(primary_monitors(&vec![]).is_empty());
}

#[test]
fn stylesheet_is_plain_declarations_without_root_block() {
    let css = build_stylesheet(&sample_inputs());
    assert!(!css.contains('{') && !css.contains('}'));
    assert!(!css.contains(":root"));
    assert!(css.ends_with(';'));
    assert_eq!(css.matches(';').count(), 43);
}
