//! Reading the compositor's JSON replies (window and monitor geometry) and
//! judging its command replies. The socket I/O itself lives outside the
//! library; these functions take the decoded reply.

use vstd::prelude::*;
use crate::text::{decimal, decimal_string, str_eq};

verus! {

/// A decoded JSON document.
pub enum JsonValue {
    Null,
    Bool(bool),
    /// A number; holds its value when it is an integer that fits in `i64`.
    Number(Option<i64>),
    Str(String),
    Array(Vec<JsonValue>),
    /// Members; keys are unique.
    Object(Vec<(String, JsonValue)>),
}

/// First member of `m` named `key`.
pub open spec fn member(m: Seq<(String, JsonValue)>, key: Seq<char>) -> Option<JsonValue>
    decreases m.len(),
{
    if m.len() == 0 {
        None
    } else if m[0].0@ == key {
        Some(m[0].1)
    } else {
        member(m.drop_first(), key)
    }
}

/// `v.get(key)`: the member named `key` of an object, nothing otherwise.
pub open spec fn json_get(v: JsonValue, key: Seq<char>) -> Option<JsonValue> {
    match v {
        JsonValue::Object(m) => member(m@, key),
        _ => None,
    }
}

pub open spec fn json_i64(v: Option<JsonValue>) -> Option<i64> {
    match v {
        Some(JsonValue::Number(Some(i))) => Some(i),
        _ => None,
    }
}

pub open spec fn json_str(v: Option<JsonValue>) -> Option<Seq<char>> {
    match v {
        Some(JsonValue::Str(s)) => Some(s@),
        _ => None,
    }
}

pub open spec fn json_bool(v: Option<JsonValue>) -> Option<bool> {
    match v {
        Some(JsonValue::Bool(b)) => Some(b),
        _ => None,
    }
}

pub open spec fn json_array(v: Option<JsonValue>) -> Option<Seq<JsonValue>> {
    match v {
        Some(JsonValue::Array(a)) => Some(a@),
        _ => None,
    }
}

impl JsonValue {
    /// The member named `key` (`None` for a non-object or a missing key).
    pub fn get(&self, key: &str) -> (r: Option<&JsonValue>)
        ensures
            r matches Some(v) ==> json_get(*self, key@) == Some(*v),
            r is None ==> json_get(*self, key@) is None,
    {
        match self {
            JsonValue::Object(m) => {
                let mut i: usize = 0;
                assert(m@.subrange(0, m@.len() as int) =~= m@);
                while i < m.len()
                    invariant
                        *self == JsonValue::Object(*m),
                        i <= m@.len(),
                        member(m@, key@) == member(m@.subrange(i as int, m@.len() as int), key@),
                    decreases m@.len() - i,
                {
                    assert(m@.subrange(i as int, m@.len() as int).drop_first()
                        =~= m@.subrange(i + 1, m@.len() as int));
                    if str_eq(m[i].0.as_str(), key) {
                        assert(m@.subrange(i as int, m@.len() as int)[0] == m@[i as int]);
                        return Some(&m[i].1);
                    }
                    i = i + 1;
                }
                None
            },
            _ => None,
        }
    }

    pub fn as_i64(v: Option<&JsonValue>) -> (r: Option<i64>)
        ensures
            r == json_i64(match v { Some(x) => Some(*x), None => None }),
    {
        match v {
            Some(JsonValue::Number(Some(i))) => Some(*i),
            _ => None,
        }
    }
}


pub open spec fn opt_ref(v: Option<&JsonValue>) -> Option<JsonValue> {
    match v {
        Some(x) => Some(*x),
        None => None,
    }
}

fn get_str(v: Option<&JsonValue>) -> (r: Option<String>)
    ensures
        r matches Some(s) ==> json_str(opt_ref(v)) == Some(s@),
        r is None ==> json_str(opt_ref(v)) is None,
{
    match v {
        Some(JsonValue::Str(s)) => Some(s.clone()),
        _ => None,
    }
}

fn get_bool(v: Option<&JsonValue>) -> (r: Option<bool>)
    ensures
        r == json_bool(opt_ref(v)),
{
    match v {
        Some(JsonValue::Bool(b)) => Some(*b),
        _ => None,
    }
}

fn get_array(v: Option<&JsonValue>) -> (r: Option<&Vec<JsonValue>>)
    ensures
        r matches Some(a) ==> json_array(opt_ref(v)) == Some(a@),
        r is None ==> json_array(opt_ref(v)) is None,
{
    match v {
        Some(JsonValue::Array(a)) => Some(a),
        _ => None,
    }
}

/// Geometry in the legacy flat form `{x, y, w, h}`.
pub open spec fn legacy_geom(o: JsonValue) -> Option<(i32, i32, i32, i32)> {
    let x = json_i64(json_get(o, "x"@));
    let y = json_i64(json_get(o, "y"@));
    let w = json_i64(json_get(o, "w"@));
    let h = json_i64(json_get(o, "h"@));
    if x is Some && y is Some && w is Some && h is Some {
        Some((x->0 as i32, y->0 as i32, w->0 as i32, h->0 as i32))
    } else {
        None
    }
}

/// Window geometry `(x, y, w, h)` from either the modern `at: [x, y]`,
/// `size: [w, h]` form or the legacy flat form. The modern form wins when both
/// arrays are present and both hold two integers; a present `at` array with
/// fewer than two entries (or, when its two entries are integers, a `size`
/// array with fewer than two entries) gives no geometry at all.
pub open spec fn spec_get_geom(o: JsonValue) -> Option<(i32, i32, i32, i32)> {
    let at = json_array(json_get(o, "at"@));
    let size = json_array(json_get(o, "size"@));
    if at is Some && size is Some {
        let a = at->0;
        let s = size->0;
        if a.len() < 2 {
            None
        } else if json_i64(Some(a[0])) is Some && json_i64(Some(a[1])) is Some {
            if s.len() < 2 {
                None
            } else if json_i64(Some(s[0])) is Some && json_i64(Some(s[1])) is Some {
                Some((
                    json_i64(Some(a[0]))->0 as i32,
                    json_i64(Some(a[1]))->0 as i32,
                    json_i64(Some(s[0]))->0 as i32,
                    json_i64(Some(s[1]))->0 as i32,
                ))
            } else {
                legacy_geom(o)
            }
        } else {
            legacy_geom(o)
        }
    } else {
        legacy_geom(o)
    }
}

fn legacy_geom_exec(o: &JsonValue) -> (r: Option<(i32, i32, i32, i32)>)
    ensures
        r == legacy_geom(*o),
{
    let x = JsonValue::as_i64(o.get("x"));
    let y = JsonValue::as_i64(o.get("y"));
    let w = JsonValue::as_i64(o.get("w"));
    let h = JsonValue::as_i64(o.get("h"));
    match (x, y, w, h) {
        (Some(x), Some(y), Some(w), Some(h)) => Some((x as i32, y as i32, w as i32, h as i32)),
        _ => None,
    }
}

/// Read a window's geometry (see `spec_get_geom`).
pub fn get_geom(o: &JsonValue) -> (r: Option<(i32, i32, i32, i32)>)
    ensures
        r == spec_get_geom(*o),
{
    let at = get_array(o.get("at"));
    let size = get_array(o.get("size"));
    if let (Some(a), Some(s)) = (at, size) {
        if a.len() < 2 {
            return None;
        }
        let x = JsonValue::as_i64(Some(&a[0]));
        let y = JsonValue::as_i64(Some(&a[1]));
        if let (Some(x), Some(y)) = (x, y) {
            if s.len() < 2 {
                return None;
            }
            let w = JsonValue::as_i64(Some(&s[0]));
            let h = JsonValue::as_i64(Some(&s[1]));
            if let (Some(w), Some(h)) = (w, h) {
                return Some((x as i32, y as i32, w as i32, h as i32));
            }
        }
    }
    legacy_geom_exec(o)
}

/// A window as the compositor reports it.
#[derive(Clone, Debug)]
pub struct WinGeom {
    pub x: i32,
    pub y: i32,
    pub w: i32,
    pub h: i32,
    /// Monitor name hosting the window.
    pub monitor: String,
    pub class: String,
    pub title: String,
    pub mapped: bool,
    pub minimized: bool,
}

/// A window as mathematical values.
pub struct WinGeomView {
    pub x: i32,
    pub y: i32,
    pub w: i32,
    pub h: i32,
    pub monitor: Seq<char>,
    pub class: Seq<char>,
    pub title: Seq<char>,
    pub mapped: bool,
    pub minimized: bool,
}

impl View for WinGeom {
    type V = WinGeomView;

    open spec fn view(&self) -> WinGeomView {
        WinGeomView {
            x: self.x,
            y: self.y,
            w: self.w,
            h: self.h,
            monitor: self.monitor@,
            class: self.class@,
            title: self.title@,
            mapped: self.mapped,
            minimized: self.minimized,
        }
    }
}

/// The monitor a window names: a string as is, an integer id in decimal,
/// anything else (or nothing) as the empty name.
pub open spec fn monitor_name(v: Option<JsonValue>) -> Seq<char> {
    match v {
        Some(m) => match json_str(Some(m)) {
            Some(s) => s,
            None => match json_i64(Some(m)) {
                Some(i) => decimal(i as int),
                None => Seq::empty(),
            },
        },
        None => Seq::empty(),
    }
}

pub open spec fn str_or_empty(v: Option<Seq<char>>) -> Seq<char> {
    match v {
        Some(s) => s,
        None => Seq::empty(),
    }
}

/// A client object of the compositor as a window: `None` without geometry.
/// A window counts as mapped unless it says otherwise, and as minimized
/// exactly when it is not mapped.
pub open spec fn spec_parse_client(o: JsonValue) -> Option<WinGeomView> {
    match spec_get_geom(o) {
        None => None,
        Some(g) => {
            let mapped = match json_bool(json_get(o, "mapped"@)) {
                Some(b) => b,
                None => true,
            };
            Some(WinGeomView {
                x: g.0,
                y: g.1,
                w: g.2,
                h: g.3,
                monitor: monitor_name(json_get(o, "monitor"@)),
                class: str_or_empty(json_str(json_get(o, "class"@))),
                title: str_or_empty(json_str(json_get(o, "title"@))),
                mapped,
                minimized: !mapped,
            })
        },
    }
}

fn string_or_empty(v: Option<String>) -> (r: String)
    ensures
        r@ == match v {
            Some(s) => s@,
            None => Seq::<char>::empty(),
        },
{
    match v {
        Some(s) => s,
        None => String::new(),
    }
}

pub fn parse_client(o: &JsonValue) -> (r: Option<WinGeom>)
    ensures
        r matches Some(g) ==> spec_parse_client(*o) == Some(g@),
        r is None ==> spec_parse_client(*o) is None,
{
    let (x, y, w, h) = match get_geom(o) {
        Some(g) => g,
        None => return None,
    };
    let mv = o.get("monitor");
    let monitor = match mv {
        Some(m) => match get_str(Some(m)) {
            Some(s) => s,
            None => match JsonValue::as_i64(Some(m)) {
                Some(i) => decimal_string(i),
                None => String::new(),
            },
        },
        None => String::new(),
    };
    let class = string_or_empty(get_str(o.get("class")));
    let title = string_or_empty(get_str(o.get("title")));
    let mapped = match get_bool(o.get("mapped")) {
        Some(b) => b,
        None => true,
    };
    let minimized = !mapped;
    Some(WinGeom { x, y, w, h, monitor, class, title, mapped, minimized })
}


/// Windows of a `clients` reply array, in order, skipping entries that have
/// no geometry.
pub open spec fn spec_clients(arr: Seq<JsonValue>) -> Seq<WinGeomView>
    decreases arr.len(),
{
    if arr.len() == 0 {
        Seq::empty()
    } else {
        let rest = spec_clients(arr.drop_last());
        match spec_parse_client(arr.last()) {
            Some(g) => rest.push(g),
            None => rest,
        }
    }
}

/// A monitor as the compositor reports it (its scale factor aside).
#[derive(Clone, Debug)]
pub struct MonitorGeom {
    pub name: String,
    pub id: i32,
    pub x: i32,
    pub y: i32,
    pub width: i32,
    pub height: i32,
}

/// A monitor object: it needs a string `name`, integer `x`, `y`, `width`,
/// `height` and some `scale` member; a missing or non-integer `id` reads as -1.
pub open spec fn spec_parse_monitor(m: JsonValue) -> Option<(Seq<char>, i32, i32, i32, i32, i32)> {
    let name = json_str(json_get(m, "name"@));
    let id = match json_i64(json_get(m, "id"@)) {
        Some(i) => i,
        None => -1i64,
    };
    let x = json_i64(json_get(m, "x"@));
    let y = json_i64(json_get(m, "y"@));
    let w = json_i64(json_get(m, "width"@));
    let h = json_i64(json_get(m, "height"@));
    if name is Some && x is Some && y is Some && w is Some && h is Some && json_get(m, "scale"@) is Some {
        Some((name->0, id as i32, x->0 as i32, y->0 as i32, w->0 as i32, h->0 as i32))
    } else {
        None
    }
}

/// Monitors of a `monitors` reply array, in order, skipping malformed entries.
pub open spec fn spec_monitors(arr: Seq<JsonValue>) -> Seq<(Seq<char>, i32, i32, i32, i32, i32)>
    decreases arr.len(),
{
    if arr.len() == 0 {
        Seq::empty()
    } else {
        let rest = spec_monitors(arr.drop_last());
        match spec_parse_monitor(arr.last()) {
            Some(m) => rest.push(m),
            None => rest,
        }
    }
}

pub open spec fn monitor_view(g: MonitorGeom) -> (Seq<char>, i32, i32, i32, i32, i32) {
    (g.name@, g.id, g.x, g.y, g.width, g.height)
}

/// A decoded JSON document of the parser's own type.
#[verifier::external_type_specification]
#[verifier::external_body]
pub struct ExJsonDocument(serde_json::Value);

/// The document that a reply text reads as: what `serde_json::from_str`
/// parses from the text once `str::trim` has removed its leading and trailing
/// Unicode whitespace (more than the JSON whitespace the parser itself skips),
/// node for node as a `JsonValue`; `None` when the text is not JSON.
pub uninterp spec fn json_of(text: Seq<char>) -> Option<JsonValue>;

/// Trusted: trims `text` with `str::trim` (Unicode whitespace) and parses it
/// with `serde_json::from_str` into a
/// `serde_json::Value` and converts it node for node. The contract claims
/// only that the result is `json_of(text)`, i.e. that the parse depends on the
/// text alone; nothing is claimed of what that document is.
#[verifier::external_body]
fn parse_reply(text: &str) -> (r: Option<JsonValue>)
    ensures
        r == json_of(text@),
{
    match serde_json::from_str::<serde_json::Value>(text.trim()) {
        Ok(v) => Some(json_from_value(v)),
        Err(_) => None,
    }
}

/// Trusted: converts a `serde_json::Value` node for node (one arm per
/// variant; a number keeps `as_i64()`, members keep the parser's order).
/// Only `parse_reply` calls it; its result is covered by that contract.
#[verifier::external_body]
fn json_from_value(v: serde_json::Value) -> JsonValue {
    match v {
        serde_json::Value::Null => JsonValue::Null,
        serde_json::Value::Bool(b) => JsonValue::Bool(b),
        serde_json::Value::Number(n) => JsonValue::Number(n.as_i64()),
        serde_json::Value::String(s) => JsonValue::Str(s),
        serde_json::Value::Array(a) => JsonValue::Array(a.into_iter().map(json_from_value).collect()),
        serde_json::Value::Object(m) => JsonValue::Object(m.into_iter().map(|(k, x)| (k, json_from_value(x))).collect()),
    }
}

pub open spec fn opt_text(reply: Option<&str>) -> Option<Seq<char>> {
    match reply {
        Some(s) => Some(s@),
        None => None,
    }
}

/// The document a reply reads as (`None` when there was no reply or it is
/// not JSON).
pub open spec fn reply_json(reply: Option<Seq<char>>) -> Option<JsonValue> {
    match reply {
        Some(t) => json_of(t),
        None => None,
    }
}

/// The window an `activewindow` document names (`null`: none).
pub open spec fn spec_active_window(v: JsonValue) -> Option<WinGeomView> {
    match v {
        JsonValue::Null => None,
        _ => spec_parse_client(v),
    }
}

pub open spec fn geom_view(r: Option<WinGeom>) -> Option<WinGeomView> {
    match r {
        Some(g) => Some(g@),
        None => None,
    }
}

/// The compositor's IPC: what is sent and how the replies are read.
pub struct Hypr;

impl Hypr {
    /// Request text asking for a JSON reply to `cmd`.
    pub fn json_command(cmd: &str) -> (r: String)
        ensures
            r@ == "j/"@ + cmd@,
    {
        let r = String::from_str("j/");
        r.concat(cmd)
    }

    /// Request text dispatching `cmd`.
    pub fn dispatch_command(cmd: &str) -> (r: String)
        ensures
            r@ == "dispatch "@ + cmd@,
    {
        let r = String::from_str("dispatch ");
        r.concat(cmd)
    }

    /// Whether the reply to a dispatch reports the command accepted
    /// (exactly "ok"; no reply means not accepted).
    pub fn dispatch(reply: Option<&str>) -> (r: bool)
        ensures
            r == (reply matches Some(s) && s@ == "ok"@),
    {
        match reply {
            Some(s) => str_eq(s, "ok"),
            None => false,
        }
    }

    /// All windows of a decoded `clients` reply (none unless it is an array).
    pub fn clients_of(reply: &JsonValue) -> (r: Vec<WinGeom>)
        ensures
            r@.map_values(|g: WinGeom| g@) == match *reply {
                JsonValue::Array(a) => spec_clients(a@),
                _ => Seq::empty(),
            },
    {
        let mut r: Vec<WinGeom> = Vec::new();
        match reply {
            JsonValue::Array(a) => {
                let mut i: usize = 0;
                while i < a.len()
                    invariant
                        *reply == JsonValue::Array(*a),
                        i <= a@.len(),
                        r@.map_values(|g: WinGeom| g@) == spec_clients(a@.take(i as int)),
                    decreases a@.len() - i,
                {
                    let ghost before = r@;
                    assert(a@.take(i + 1).drop_last() =~= a@.take(i as int));
                    assert(a@.take(i + 1).last() == a@[i as int]);
                    match parse_client(&a[i]) {
                        Some(g) => {
                            r.push(g);
                            assert(r@.map_values(|g: WinGeom| g@) =~= before.map_values(|g: WinGeom| g@).push(g@));
                        },
                        None => {},
                    }
                    i = i + 1;
                }
                assert(a@.take(a@.len() as int) =~= a@);
            },
            _ => {
                assert(r@.map_values(|g: WinGeom| g@) =~= Seq::<WinGeomView>::empty());
            },
        }
        r
    }

    /// The focused window of a decoded `activewindow` reply (`null` when none).
    pub fn active_window_of(reply: &JsonValue) -> (r: Option<WinGeom>)
        ensures
            geom_view(r) == spec_active_window(*reply),
    {
        match reply {
            JsonValue::Null => None,
            _ => parse_client(reply),
        }
    }

    /// All monitors of a decoded `monitors` reply (none unless it is an array).
    pub fn monitors_of(reply: &JsonValue) -> (r: Vec<MonitorGeom>)
        ensures
            r@.map_values(|g: MonitorGeom| monitor_view(g)) == match *reply {
                JsonValue::Array(a) => spec_monitors(a@),
                _ => Seq::empty(),
            },
    {
        let mut r: Vec<MonitorGeom> = Vec::new();
        match reply {
            JsonValue::Array(a) => {
                let mut i: usize = 0;
                while i < a.len()
                    invariant
                        *reply == JsonValue::Array(*a),
                        i <= a@.len(),
                        r@.map_values(|g: MonitorGeom| monitor_view(g)) == spec_monitors(a@.take(i as int)),
                    decreases a@.len() - i,
                {
                    let ghost before = r@;
                    assert(a@.take(i + 1).drop_last() =~= a@.take(i as int));
                    assert(a@.take(i + 1).last() == a@[i as int]);
                    match Hypr::parse_monitor(&a[i]) {
                        Some(g) => {
                            r.push(g);
                            assert(r@.map_values(|g: MonitorGeom| monitor_view(g)) =~= before.map_values(
                                |g: MonitorGeom| monitor_view(g),
                            ).push(monitor_view(g)));
                        },
                        None => {},
                    }
                    i = i + 1;
                }
                assert(a@.take(a@.len() as int) =~= a@);
            },
            _ => {
                assert(r@.map_values(|g: MonitorGeom| monitor_view(g)) =~= Seq::<(Seq<char>, i32, i32, i32, i32, i32)>::empty());
            },
        }
        r
    }

    /// All windows of the text of a `clients` reply (`None`: the request
    /// failed); none unless it reads as a JSON array.
    pub fn clients(reply: Option<&str>) -> (r: Vec<WinGeom>)
        ensures
            r@.map_values(|g: WinGeom| g@) == match reply_json(opt_text(reply)) {
                Some(JsonValue::Array(a)) => spec_clients(a@),
                _ => Seq::empty(),
            },
    {
        match reply {
            Some(t) => match parse_reply(t) {
                Some(v) => Hypr::clients_of(&v),
                None => {
                    let r: Vec<WinGeom> = Vec::new();
                    assert(r@.map_values(|g: WinGeom| g@) =~= Seq::<WinGeomView>::empty());
                    r
                },
            },
            None => {
                let r: Vec<WinGeom> = Vec::new();
                assert(r@.map_values(|g: WinGeom| g@) =~= Seq::<WinGeomView>::empty());
                r
            },
        }
    }

    /// The focused window of the text of an `activewindow` reply.
    pub fn active_window(reply: Option<&str>) -> (r: Option<WinGeom>)
        ensures
            geom_view(r) == match reply_json(opt_text(reply)) {
                Some(v) => spec_active_window(v),
                None => None,
            },
    {
        match reply {
            Some(t) => match parse_reply(t) {
                Some(v) => Hypr::active_window_of(&v),
                None => None,
            },
            None => None,
        }
    }

    /// All monitors of the text of a `monitors` reply; none unless it reads
    /// as a JSON array.
    pub fn monitors(reply: Option<&str>) -> (r: Vec<MonitorGeom>)
        ensures
            r@.map_values(|g: MonitorGeom| monitor_view(g)) == match reply_json(opt_text(reply)) {
                Some(JsonValue::Array(a)) => spec_monitors(a@),
                _ => Seq::empty(),
            },
    {
        match reply {
            Some(t) => match parse_reply(t) {
                Some(v) => Hypr::monitors_of(&v),
                None => {
                    let r: Vec<MonitorGeom> = Vec::new();
                    assert(r@.map_values(|g: MonitorGeom| monitor_view(g))
                        =~= Seq::<(Seq<char>, i32, i32, i32, i32, i32)>::empty());
                    r
                },
            },
            None => {
                let r: Vec<MonitorGeom> = Vec::new();
                assert(r@.map_values(|g: MonitorGeom| monitor_view(g))
                    =~= Seq::<(Seq<char>, i32, i32, i32, i32, i32)>::empty());
                r
            },
        }
    }

    /// One entry of a `monitors` reply (see `spec_parse_monitor`).
    pub fn parse_monitor(m: &JsonValue) -> (r: Option<MonitorGeom>)
        ensures
            r matches Some(g) ==> spec_parse_monitor(*m) == Some((g.name@, g.id, g.x, g.y, g.width, g.height)),
            r is None ==> spec_parse_monitor(*m) is None,
    {
        let name = match get_str(m.get("name")) {
            Some(n) => n,
            None => return None,
        };
        let id = match JsonValue::as_i64(m.get("id")) {
            Some(i) => i,
            None => -1,
        };
        let x = match JsonValue::as_i64(m.get("x")) {
            Some(v) => v,
            None => return None,
        };
        let y = match JsonValue::as_i64(m.get("y")) {
            Some(v) => v,
            None => return None,
        };
        let width = match JsonValue::as_i64(m.get("width")) {
            Some(v) => v,
            None => return None,
        };
        let height = match JsonValue::as_i64(m.get("height")) {
            Some(v) => v,
            None => return None,
        };
        if m.get("scale").is_none() {
            return None;
        }
        Some(MonitorGeom { name, id: id as i32, x: x as i32, y: y as i32, width: width as i32, height: height as i32 })
    }
}

} // verus!
