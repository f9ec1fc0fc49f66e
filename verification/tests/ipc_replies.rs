use hyprhalo::hypr::{get_geom, parse_client, Hypr, JsonValue};

fn num(i: i64) -> JsonValue {
    JsonValue::Number(Some(i))
}

fn float() -> JsonValue {
    JsonValue::Number(None)
}

fn text(s: &str) -> JsonValue {
    JsonValue::Str(s.to_string())
}

fn arr(v: Vec<JsonValue>) -> JsonValue {
    JsonValue::Array(v)
}

fn obj(members: Vec<(&str, JsonValue)>) -> JsonValue {
    JsonValue::Object(members.into_iter().map(|(k, v)| (k.to_string(), v)).collect())
}

fn window(x: i64, y: i64, w: i64, h: i64) -> Vec<(&'static str, JsonValue)> {
    vec![("at", arr(vec![num(x), num(y)])), ("size", arr(vec![num(w), num(h)]))]
}

#[test]
fn member_lookup() {
    let o = obj(vec![("a", num(1)), ("b", text("x"))]);
    assert_eq!(JsonValue::as_i64(o.get("a")), Some(1));
    assert_eq!(JsonValue::as_i64(o.get("b")), None);
    assert!(o.get("c").is_none());
    assert!(num(3).get("a").is_none());
    assert_eq!(JsonValue::as_i64(Some(&float())), None);
}

#[test]
fn geometry_from_at_and_size() {
    let o = obj(window(10, 20, 300, 400));
    assert_eq!(get_geom(&o), Some((10, 20, 300, 400)));
}

#[test]
fn geometry_prefers_at_and_size_over_legacy_keys() {
    let mut m = window(10, 20, 300, 400);
    m.extend(vec![("x", num(1)), ("y", num(2)), ("w", num(3)), ("h", num(4))]);
    assert_eq!(get_geom(&obj(m)), Some((10, 20, 300, 400)));
}

#[test]
fn geometry_from_legacy_keys() {
    let o = obj(vec![("x", num(1)), ("y", num(2)), ("w", num(3)), ("h", num(4))]);
    assert_eq!(get_geom(&o), Some((1, 2, 3, 4)));
    // one key missing: no geometry
    let o = obj(vec![("x", num(1)), ("y", num(2)), ("w", num(3))]);
    assert_eq!(get_geom(&o), None);
}

#[test]
fn geometry_with_short_arrays_is_refused() {
    // `at` with a single element ends the lookup, legacy keys or not
    let o = obj(vec![
        ("at", arr(vec![num(10)])),
        ("size", arr(vec![num(300), num(400)])),
        ("x", num(1)),
        ("y", num(2)),
        ("w", num(3)),
        ("h", num(4)),
    ]);
    assert_eq!(get_geom(&o), None);
    let o = obj(vec![("at", arr(vec![num(10), num(20)])), ("size", arr(vec![num(300)]))]);
    assert_eq!(get_geom(&o), None);
}

#[test]
fn geometry_with_non_integer_position_falls_back() {
    let o = obj(vec![
        ("at", arr(vec![float(), num(20)])),
        ("size", arr(vec![num(300), num(400)])),
        ("x", num(1)),
        ("y", num(2)),
        ("w", num(3)),
        ("h", num(4)),
    ]);
    assert_eq!(get_geom(&o), Some((1, 2, 3, 4)));
}

#[test]
fn client_fields() {
    let mut m = window(10, 20, 300, 400);
    m.extend(vec![("monitor", text("DP-1")), ("class", text("mpv")), ("title", text("video")), ("mapped", JsonValue::Bool(false))]);
    let g = parse_client(&obj(m)).unwrap();
    assert_eq!((g.x, g.y, g.w, g.h), (10, 20, 300, 400));
    assert_eq!(g.monitor, "DP-1");
    assert_eq!(g.class, "mpv");
    assert_eq!(g.title, "video");
    assert!(!g.mapped);
    assert!(g.minimized);
}

#[test]
fn client_monitor_by_id_and_defaults() {
    let mut m = window(0, 0, 1, 1);
    m.push(("monitor", num(-2)));
    let g = parse_client(&obj(m)).unwrap();
    assert_eq!(g.monitor, "-2");
    assert_eq!(g.class, "");
    assert_eq!(g.title, "");
    assert!(g.mapped);
    assert!(!g.minimized);

    let g = parse_client(&obj(window(0, 0, 1, 1))).unwrap();
    assert_eq!(g.monitor, "");
    // a monitor that is neither text nor integer reads as empty
    let mut m = window(0, 0, 1, 1);
    m.push(("monitor", JsonValue::Bool(true)));
    assert_eq!(parse_client(&obj(m)).unwrap().monitor, "");
    assert!(parse_client(&obj(vec![("class", text("x"))])).is_none());
}

#[test]
fn clients_skip_entries_without_geometry() {
    let reply = arr(vec![
        obj(window(1, 1, 10, 10)),
        obj(vec![("class", text("broken"))]),
        num(7),
        obj(window(2, 2, 20, 20)),
    ]);
    let cs = Hypr::clients_of(&reply);
    assert_eq!(cs.len(), 2);
    assert_eq!((cs[0].x, cs[1].x), (1, 2));
    assert!(Hypr::clients_of(&obj(window(1, 1, 1, 1))).is_empty());
}

#[test]
fn active_window_null_means_none() {
    assert!(Hypr::active_window_of(&JsonValue::Null).is_none());
    assert!(Hypr::active_window_of(&obj(vec![])).is_none());
    let g = Hypr::active_window_of(&obj(window(5, 6, 7, 8))).unwrap();
    assert_eq!((g.x, g.y, g.w, g.h), (5, 6, 7, 8));
}

fn monitor(name: JsonValue, id: Option<i64>, scale: bool) -> JsonValue {
    let mut m = vec![("name", name), ("x", num(1920)), ("y", num(0)), ("width", num(2560)), ("height", num(1440))];
    if let Some(i) = id {
        m.push(("id", num(i)));
    }
    if scale {
        m.push(("scale", float()));
    }
    obj(m)
}

#[test]
fn monitor_entries() {
    let m = Hypr::parse_monitor(&monitor(text("DP-2"), Some(1), true)).unwrap();
    assert_eq!(m.name, "DP-2");
    assert_eq!((m.id, m.x, m.y, m.width, m.height), (1, 1920, 0, 2560, 1440));
    // missing id reads as -1
    assert_eq!(Hypr::parse_monitor(&monitor(text("DP-2"), None, true)).unwrap().id, -1);
    // scale must be present; name must be text
    assert!(Hypr::parse_monitor(&monitor(text("DP-2"), Some(1), false)).is_none());
    assert!(Hypr::parse_monitor(&monitor(num(3), Some(1), true)).is_none());
}

#[test]
fn monitors_of_a_reply() {
    let reply = arr(vec![
        monitor(text("DP-1"), Some(0), true),
        monitor(text("bad"), Some(1), false),
        monitor(text("HDMI-A-1"), Some(2), true),
    ]);
    let ms = Hypr::monitors_of(&reply);
    assert_eq!(ms.len(), 2);
    assert_eq!(ms[0].name, "DP-1");
    assert_eq!(ms[1].name, "HDMI-A-1");
    assert!(Hypr::monitors_of(&JsonValue::Null).is_empty());
}

#[test]
fn dispatch_replies() {
    assert!(Hypr::dispatch(Some("ok")));
    assert!(!Hypr::dispatch(Some("ok\n")));
    assert!(!Hypr::dispatch(Some("unknown request")));
    assert!(!Hypr::dispatch(None));
}

#[test]
fn request_texts() {
    assert_eq!(Hypr::json_command("activewindow"), "j/activewindow");
    assert_eq!(Hypr::dispatch_command("setprop class:* border_size 2"), "dispatch setprop class:* border_size 2");
}

#[test]
fn clients_from_reply_text() {
    let text = "  [{\"at\": [10, 20], \"size\": [300, 400], \"class\": \"mpv\", \"monitor\": 1},\n {\"class\": \"broken\"}]\n";
    let cs = Hypr::clients(Some(text));
    assert_eq!(cs.len(), 1);
    assert_eq!((cs[0].x, cs[0].y, cs[0].w, cs[0].h), (10, 20, 300, 400));
    assert_eq!(cs[0].class, "mpv");
    assert_eq!(cs[0].monitor, "1");
    // no reply, not JSON, or not an array: no windows
    assert!(Hypr::clients(None).is_empty());
    assert!(Hypr::clients(Some("unknown request")).is_empty());
    assert!(Hypr::clients(Some("{}")).is_empty());
}

#[test]
fn active_window_from_reply_text() {
    let g = Hypr::active_window(Some("{\"x\": 1, \"y\": 2, \"w\": 3, \"h\": 4, \"mapped\": true}")).unwrap();
    assert_eq!((g.x, g.y, g.w, g.h), (1, 2, 3, 4));
    assert!(Hypr::active_window(Some("null")).is_none());
    assert!(Hypr::active_window(Some("{}")).is_none());
    assert!(Hypr::active_window(Some("")).is_none());
    assert!(Hypr::active_window(None).is_none());
}

#[test]
fn monitors_from_reply_text() {
    let text = "[{\"name\": \"DP-1\", \"id\": 0, \"x\": 0, \"y\": 0, \"width\": 2560, \"height\": 1440, \"scale\": 1.25}, {\"name\": \"HDMI-A-1\", \"x\": 2560, \"y\": 0, \"width\": 1920, \"height\": 1080}]";
    let ms = Hypr::monitors(Some(text));
    // the second has no scale: skipped
    assert_eq!(ms.len(), 1);
    assert_eq!(ms[0].name, "DP-1");
    assert_eq!((ms[0].width, ms[0].height), (2560, 1440));
    assert!(Hypr::monitors(Some("[1, 2")).is_empty());
    // a fractional position is no integer
    let frac = "[{\"name\": \"DP-1\", \"x\": 0.5, \"y\": 0, \"width\": 1, \"height\": 1, \"scale\": 1}]";
    assert!(Hypr::monitors(Some(frac)).is_empty());
}
