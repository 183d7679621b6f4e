//! The compositor's side of the Qt host.

use solium::geometry::Size;
use solium::qml::{
    import_path, pointer, render, scale_or_one, tick, user_qml_dir, whole, Rendered, Scene,
    Unloaded, Unrendered,
};
use solium::trace::{self, Trace, VARIABLE};

fn bits(scale: f64) -> u64 {
    scale.to_bits()
}

#[test]
fn a_scale_is_above_nothing_or_it_is_one() {
    for scale in [0.5, 1.0, 2.0, f64::INFINITY, f64::MIN_POSITIVE] {
        assert_eq!(scale_or_one(bits(scale)), bits(scale));
    }
    for scale in [0.0, -0.0, -2.0, f64::NAN, f64::NEG_INFINITY] {
        assert_eq!(scale_or_one(bits(scale)), bits(1.0));
    }
}

#[test]
fn a_scene_is_told_what_it_does_not_know() {
    let mut scene = match Scene::with_properties(640, 480, true, None) {
        Ok(scene) => scene,
        Err(_) => panic!("the host made one"),
    };
    assert_eq!(scene.scale, bits(1.0));
    assert!(!scene.resize(640, 480, bits(1.0), true), "not news");
    assert!(!scene.resize(0, 480, bits(2.0), false), "not a size");
    assert!(scene.resize(640, 480, bits(2.0), false));
    assert_eq!(scene.scale, bits(2.0));
    assert!(scene.resize(800, 480, bits(-1.0), false));
    assert_eq!(
        scene,
        Scene {
            size: Size::new(800, 480),
            scale: bits(1.0)
        }
    );
}

#[test]
fn a_scene_that_was_not_loaded_says_why() {
    let why = |reason: Option<&str>| {
        match Scene::with_properties(1, 1, false, reason.map(str::to_owned)) {
            Err(Unloaded::Refused(why)) => why,
            _ => panic!("the host made none"),
        }
    };
    assert_eq!(why(Some("line 3")), "line 3");
    assert_eq!(why(None), "unknown");
    assert!(Scene::asked("a.qml", None).is_ok());
    assert!(Scene::asked("a.qml", Some("{}")).is_ok());
    assert!(matches!(
        Scene::asked("a\0.qml", Some("\0")),
        Err(Unloaded::Path)
    ));
    assert!(matches!(
        Scene::asked("a.qml", Some("{\0}")),
        Err(Unloaded::Properties)
    ));
    assert!(whole("") && !whole("\0"));
}

#[test]
fn a_render_comes_with_its_pixels() {
    assert_eq!(render(0, true, 4, 1), Err(Unrendered::Failed));
    assert_eq!(render(1, false, 4, 1), Err(Unrendered::Blank));
    assert_eq!(render(1, true, 0, 1), Err(Unrendered::Blank));
    assert_eq!(
        render(1, true, 2560, 480),
        Ok(Rendered {
            changed: true,
            stride: 2560,
            bytes: 1_228_800
        })
    );
    assert_eq!(
        render(2, true, 16, -4),
        Ok(Rendered {
            changed: false,
            stride: 16,
            bytes: 0
        })
    );
}

#[test]
fn the_host_counts_in_milliseconds() {
    assert_eq!(tick(1_999_999), 1);
    assert_eq!(tick(u128::MAX), i64::MAX);
    assert_eq!(
        (pointer(Some(true)), pointer(Some(false)), pointer(None)),
        (1, 0, -1)
    );
}

#[test]
fn scenes_are_looked_for_in_the_users_directory_first() {
    assert_eq!(
        import_path(None, Some("/home/lily/qml"), "/usr/qml", "/usr/qml/compat"),
        "/home/lily/qml:/usr/qml:/usr/qml/compat"
    );
    assert_eq!(
        import_path(None, None, "/usr/qml", "/usr/qml/compat"),
        "/usr/qml:/usr/qml/compat"
    );
    assert_eq!(
        import_path(Some("/tmp/q".to_owned()), Some("a"), "b", "c"),
        "/tmp/q"
    );
    assert_eq!(
        user_qml_dir(Some("/etc/xdg"), Some("/home/lily")).as_deref(),
        Some("/etc/xdg/solium/qml")
    );
    assert_eq!(
        user_qml_dir(None, Some("/home/lily")).as_deref(),
        Some("/home/lily/.config/solium/qml")
    );
    assert_eq!(user_qml_dir(None, None), None);
}

#[test]
fn a_resize_is_recorded_a_line_at_a_time() {
    let off: Trace<u8> = Trace { sink: None };
    assert!(!trace::on(&off));
    assert_eq!(trace::line(&off, "drawn", "pane=1"), None);
    let sink = Trace { sink: Some(3_u8) };
    assert!(trace::on(&sink));
    assert_eq!(
        trace::line(&sink, "drawn", "pane=1 held=0").as_deref(),
        Some("drawn pane=1 held=0\n")
    );
    assert_eq!(VARIABLE, "SOLIUM_RESIZE_TRACE");
}
