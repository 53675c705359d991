//! Reading compositor replies.

use wlr_utils::focus::{
    detect, hypr_active_window_rect, hypr_focused_output, niri_focused_output, read_reply,
    sway_focus_order, sway_scratchpad_ids, Backend, Environment, FocusBackend, Hyprland, Niri,
    Query, Reply, Sway,
};
use wlr_utils::geometry::{contains, Region};
use wlr_utils::json::{parse, Json};
use wlr_utils::sway::{
    find_focused, rect_of, sway_active_window_rect, sway_content_rect, sway_focus_order_of,
    sway_focused_output, sway_is_window, sway_scratchpad_identifiers, sway_window_at, FocusOrder,
};

// A trimmed but faithful `hyprctl -j monitors` sample (two monitors, the second focused).
const HYPR_MONITORS: &str = r#"[
        {"id":0,"name":"DP-1","make":"Dell","model":"X","width":2560,"height":1440,
         "x":0,"y":0,"refreshRate":59.95,"scale":1.0,"focused":false},
        {"id":1,"name":"HDMI-A-1","make":"LG","model":"Y","width":1920,"height":1080,
         "x":2560,"y":0,"refreshRate":60.0,"scale":1.0,"focused":true}
    ]"#;

// `hyprctl -j activewindow` gives `at`/`size` pairs in global logical coords.
const HYPR_ACTIVEWINDOW: &str =
    r#"{"address":"0x55","class":"foot","title":"foot","at":[120,340],"size":[800,600]}"#;

// An output with a visible workspace (firefox, with a 20px title-bar `window_rect`) and a
// *hidden* workspace whose window (vim) covers the same coordinates.
const SWAY_TREE: &str = r#"{
      "type":"root","rect":{"x":0,"y":0,"width":3840,"height":1440},
      "nodes":[{
        "type":"output","name":"DP-4","rect":{"x":0,"y":0,"width":3840,"height":1440},
        "nodes":[
          {
            "type":"workspace","name":"1","visible":true,
            "rect":{"x":0,"y":0,"width":3840,"height":1440},
            "nodes":[{
              "type":"con","app_id":"firefox","name":"Page Title","visible":true,
              "rect":{"x":100,"y":100,"width":800,"height":600},
              "window_rect":{"x":0,"y":20,"width":800,"height":580}
            }]
          },
          {
            "type":"workspace","name":"2","visible":false,
            "rect":{"x":0,"y":0,"width":3840,"height":1440},
            "nodes":[{
              "type":"con","app_id":"vim","name":"editor","visible":false,
              "rect":{"x":100,"y":100,"width":800,"height":600}
            }]
          }
        ]
      }]
    }"#;

// An ordinary tiled window, a hidden scratchpad window, a scratchpad window that is shown, and
// a whole container sent to the scratchpad.
const SWAY_SCRATCHPAD_TREE: &str = r#"{
      "type":"root",
      "nodes":[
        {
          "type":"output","name":"__i3",
          "nodes":[{
            "type":"workspace","name":"__i3_scratch","visible":false,
            "floating_nodes":[{
              "type":"floating_con","app_id":"foot","name":"term",
              "scratchpad_state":"fresh","visible":false,
              "foreign_toplevel_identifier":"ext-toplevel-0x1a"
            },{
              "type":"floating_con","layout":"tabbed",
              "scratchpad_state":"fresh","visible":false,
              "nodes":[{
                "type":"con","app_id":"kitty","name":"~",
                "scratchpad_state":"none","visible":false,
                "foreign_toplevel_identifier":"ext-toplevel-0x4d"
              },{
                "type":"con","app_id":"kitty","name":"~",
                "scratchpad_state":"none","visible":false,
                "foreign_toplevel_identifier":"ext-toplevel-0x5e"
              }]
            }]
          }]
        },
        {
          "type":"output","name":"DP-5",
          "nodes":[{
            "type":"workspace","name":"1","visible":true,
            "nodes":[{
              "type":"con","app_id":"firefox","name":"Page",
              "scratchpad_state":"none","visible":true,
              "foreign_toplevel_identifier":"ext-toplevel-0x2b"
            }],
            "floating_nodes":[{
              "type":"floating_con","app_id":"pavucontrol","name":"Volume",
              "scratchpad_state":"changed","visible":true,
              "foreign_toplevel_identifier":"ext-toplevel-0x3c"
            }]
          }]
        }
      ]
    }"#;

// Two workspaces on one output, with `focus` arrays that disagree with the tree's own child
// order at every level.
const SWAY_FOCUS_TREE: &str = r#"{
      "type":"root","id":1,"focus":[3],
      "nodes":[{
        "type":"output","id":3,"name":"DP-5","focus":[20,10],
        "nodes":[
          {
            "type":"workspace","id":10,"name":"1","focus":[12,11],
            "nodes":[
              {"type":"con","id":11,"app_id":"firefox","name":"Page","focus":[],
               "focused":false,"foreign_toplevel_identifier":"ext-3"},
              {"type":"con","id":12,"app_id":"foot","name":"term","focus":[],
               "focused":false,"foreign_toplevel_identifier":"ext-2"}
            ]
          },
          {
            "type":"workspace","id":20,"name":"2","focus":[22,21],
            "nodes":[
              {"type":"con","id":21,"app_id":"alacritty","name":"shell","focus":[],
               "focused":false,"foreign_toplevel_identifier":"ext-4"},
              {"type":"con","id":22,"app_id":"emacs","name":"main.rs","focus":[],
               "focused":true,"foreign_toplevel_identifier":"ext-1"}
            ]
          }
        ]
      }]
    }"#;

fn json(text: &str) -> Json {
    parse(text.as_bytes()).unwrap()
}

fn reply(text: &str) -> Option<Reply> {
    Some(Reply { success: true, stdout: text.as_bytes().to_vec() })
}

#[test]
fn sway_scratchpad_identifiers_collects_hidden_and_shown_scratchpad_windows() {
    let v = json(SWAY_SCRATCHPAD_TREE);
    let ids = sway_scratchpad_identifiers(&v);
    // The hidden one, and the one currently shown from the scratchpad.
    assert!(ids.contains("ext-toplevel-0x1a"));
    assert!(ids.contains("ext-toplevel-0x3c"));
    // The ordinary tiled window is not.
    assert!(!ids.contains("ext-toplevel-0x2b"));
    assert_eq!(ids.len(), 4);
}

#[test]
fn sway_scratchpad_identifiers_collects_windows_under_a_scratchpad_container() {
    let v = json(SWAY_SCRATCHPAD_TREE);
    let ids = sway_scratchpad_identifiers(&v);
    assert!(ids.contains("ext-toplevel-0x4d"));
    assert!(ids.contains("ext-toplevel-0x5e"));
}

#[test]
fn sway_focus_order_lists_windows_most_recently_focused_first() {
    let v = json(SWAY_FOCUS_TREE);
    let f = sway_focus_order_of(&v);
    assert_eq!(f.order, ["ext-1", "ext-4", "ext-2", "ext-3"]);
    // A window holds the focus, and it necessarily leads the order.
    assert_eq!(f.focused.as_deref(), Some("ext-1"));
    assert_eq!(f.order.first().map(String::as_str), f.focused.as_deref());
}

#[test]
fn sway_focus_order_reports_no_focused_window_when_none_is_focused() {
    let v = json(&SWAY_FOCUS_TREE.replace("\"focused\":true", "\"focused\":false"));
    let f = sway_focus_order_of(&v);
    assert_eq!(f.focused, None);
    assert_eq!(f.order, ["ext-1", "ext-4", "ext-2", "ext-3"]);
}

#[test]
fn sway_focus_order_collects_windows_under_a_scratchpad_container() {
    let v = json(SWAY_SCRATCHPAD_TREE);
    let f = sway_focus_order_of(&v);
    assert!(f.order.contains(&"ext-toplevel-0x4d".to_string()));
    assert!(f.order.contains(&"ext-toplevel-0x5e".to_string()));
    // Every window in the tree is listed, ranked or not.
    assert_eq!(f.order.len(), 5);
}

#[test]
fn sway_focus_order_without_focus_arrays_keeps_tree_order() {
    let v = json(SWAY_TREE);
    let f = sway_focus_order_of(&v);
    assert_eq!(f.focused, None);
}

#[test]
fn sway_scratchpad_state_null_is_not_scratchpad_membership() {
    let v = json(
        r#"{"type":"root","scratchpad_state":null,
            "nodes":[{"type":"con","app_id":"foot","name":"term",
                      "scratchpad_state":"none",
                      "foreign_toplevel_identifier":"ext-1"}]}"#,
    );
    assert!(sway_scratchpad_identifiers(&v).is_empty());
}

#[test]
fn sway_scratchpad_identifiers_on_empty_scratchpad_is_empty() {
    let v = json(SWAY_TREE);
    assert!(sway_scratchpad_identifiers(&v).is_empty());
}

#[test]
fn sway_window_at_finds_visible_window_and_content_rect() {
    let v = json(SWAY_TREE);
    let w = sway_window_at(&v, 200, 200).expect("window under the point");
    // The visible window wins, never the one on the hidden workspace.
    assert_eq!(w.app_id, "firefox");
    assert_eq!(w.title, "Page Title");
    // Content rect = node rect shifted by the 20px title bar.
    assert_eq!(w.rect, Region { x: 100, y: 120, w: 800, h: 580 });
    // A point on the empty desktop hits no window.
    assert!(sway_window_at(&v, 2000, 1300).is_none());
}

#[test]
fn hypr_focused_output_picks_focused_monitor() {
    let v = json(HYPR_MONITORS);
    assert_eq!(hypr_focused_output(&v).as_deref(), Some("HDMI-A-1"));
}

#[test]
fn hypr_active_window_rect_reads_at_and_size() {
    let v = json(HYPR_ACTIVEWINDOW);
    assert_eq!(
        hypr_active_window_rect(&v),
        Some(Region { x: 120, y: 340, w: 800, h: 600 })
    );
}

#[test]
fn hypr_no_active_window_is_none() {
    let v = json("{}");
    assert!(hypr_active_window_rect(&v).is_none());
}

#[test]
fn niri_focused_output_reads_name() {
    let v = json(
        r#"{"name":"eDP-1","make":"BOE","model":"Z",
            "logical":{"x":0,"y":0,"width":1920,"height":1080,"scale":1.0}}"#,
    );
    assert_eq!(niri_focused_output(&v).as_deref(), Some("eDP-1"));
    assert!(niri_focused_output(&Json::Null).is_none());
}

#[test]
fn replies_are_read_only_after_success() {
    let good = reply(SWAY_FOCUS_TREE);
    assert_eq!(sway_focus_order(&good).unwrap().order, ["ext-1", "ext-4", "ext-2", "ext-3"]);
    assert_eq!(sway_scratchpad_ids(&reply(SWAY_SCRATCHPAD_TREE)).unwrap().len(), 4);
    let failed = Some(Reply { success: false, stdout: SWAY_FOCUS_TREE.as_bytes().to_vec() });
    assert!(sway_focus_order(&failed).is_none());
    assert!(sway_scratchpad_ids(&failed).is_none());
    assert!(sway_focus_order(&None).is_none());
    assert!(read_reply(&reply("{\"half\":")).is_none());
    assert!(read_reply(&reply("")).is_none());
}

#[test]
fn parsed_values_keep_their_kinds() {
    let v = json(
        r#"{"n":null,"b":true,"i":-5,"u":18446744073709551615,"f":1.5,"s":"x\u00e9",
            "a":[1,2]}"#,
    );
    assert!(v.get("n").unwrap().is_null());
    assert_eq!(v.get("b").unwrap().as_bool(), Some(true));
    assert_eq!(v.signed_field("i"), Some(-5));
    assert_eq!(v.unsigned_field("i"), None);
    assert_eq!(v.unsigned_field("u"), Some(u64::MAX));
    assert_eq!(v.signed_field("u"), None);
    assert_eq!(v.signed_field("f"), None);
    assert_eq!(v.unsigned_field("f"), None);
    assert_eq!(v.text_field("s"), Some("x\u{e9}"));
    let items = v.get("a").unwrap().as_array().unwrap();
    assert_eq!(items.len(), 2);
    assert_eq!(items[1].as_i64(), Some(2));
    assert!(v.get("missing").is_none());
    assert!(json("[1]").get("n").is_none());
    assert!(v.has_non_null("b"));
    assert!(!v.has_non_null("n"));
    assert!(!v.has_non_null("missing"));
}

#[test]
fn the_last_of_two_equal_names_counts() {
    assert_eq!(json(r#"{"a":1,"a":2}"#).signed_field("a"), Some(2));
}

#[test]
fn focus_arrays_rank_tiled_and_floating_children_together() {
    let v = json(
        r#"{"focus":[2,"x",3,1],
            "nodes":[{"id":1,"foreign_toplevel_identifier":"one"},
                     {"id":9,"foreign_toplevel_identifier":"nine"},
                     {"foreign_toplevel_identifier":"idless"}],
            "floating_nodes":[{"id":3,"foreign_toplevel_identifier":"three"},
                              {"id":2,"foreign_toplevel_identifier":"two"},
                              {"id":2,"foreign_toplevel_identifier":"two again"},
                              {"id":8,"foreign_toplevel_identifier":""}]}"#,
    );
    let f = sway_focus_order_of(&v);
    assert_eq!(f.order, ["two", "two again", "three", "one", "nine", "idless"]);
}

#[test]
fn without_focus_arrays_the_order_is_the_trees() {
    let f = sway_focus_order_of(&json(SWAY_SCRATCHPAD_TREE));
    assert_eq!(
        f.order,
        [
            "ext-toplevel-0x1a",
            "ext-toplevel-0x4d",
            "ext-toplevel-0x5e",
            "ext-toplevel-0x2b",
            "ext-toplevel-0x3c"
        ]
    );
}

#[test]
fn every_scratchpad_window_is_in_the_focus_order() {
    let v = json(SWAY_SCRATCHPAD_TREE);
    let ids = sway_scratchpad_identifiers(&v);
    let order = sway_focus_order_of(&v).order;
    assert_eq!(order.iter().filter(|id| ids.contains(id)).count(), ids.len());
}

#[test]
fn focus_on_something_other_than_a_window_is_no_focused_window() {
    let v = json(
        r#"{"nodes":[{"type":"workspace","focused":true,"foreign_toplevel_identifier":"w"},
                     {"app_id":"a","foreign_toplevel_identifier":"x"}]}"#,
    );
    assert_eq!(sway_focus_order_of(&v).focused, None);
    let empty = json(r#"{"app_id":"a","focused":true,"foreign_toplevel_identifier":""}"#);
    assert_eq!(sway_focus_order_of(&empty).focused, None);
    let x11 = json(
        r#"{"window_properties":null,"focused":true,"foreign_toplevel_identifier":"x"}"#,
    );
    assert_eq!(sway_focus_order_of(&x11).focused.as_deref(), Some("x"));
}

#[test]
fn the_first_focused_node_is_found() {
    let v = json(
        r#"{"floating_nodes":[{"focused":true,"name":"b"}],
            "nodes":[{"nodes":[{"focused":true,"name":"a"}]}]}"#,
    );
    assert_eq!(find_focused(&v).unwrap().text_field("name"), Some("a"));
    assert!(find_focused(&json("{}")).is_none());
}

#[test]
fn focus_order_does_not_depend_on_who_has_the_focus() {
    let moved = SWAY_FOCUS_TREE
        .replace("\"focused\":true", "\"focused\":0")
        .replace("\"focused\":false", "\"focused\":true");
    let f = sway_focus_order_of(&json(&moved));
    assert_eq!(f.order, ["ext-1", "ext-4", "ext-2", "ext-3"]);
    assert_eq!(f.focused.as_deref(), Some("ext-3"));
}

#[test]
fn the_default_focus_order_is_empty() {
    let f = FocusOrder::default();
    assert!(f.order.is_empty());
    assert!(f.focused.is_none());
    assert!(f.clone().order.is_empty());
}

#[test]
fn windows_are_told_apart_from_containers() {
    assert!(sway_is_window(&json(r#"{"app_id":"foot"}"#)));
    assert!(!sway_is_window(&json(r#"{"app_id":null}"#)));
    assert!(sway_is_window(&json(r#"{"app_id":null,"window_properties":{}}"#)));
    assert!(!sway_is_window(&json("{}")));
}

#[test]
fn rects_need_all_four_numbers() {
    let r = json(r#"{"rect":{"x":-1,"y":2,"width":3,"height":4}}"#);
    assert_eq!(rect_of(&r), Some(Region { x: -1, y: 2, w: 3, h: 4 }));
    assert_eq!(rect_of(&json(r#"{"rect":{"x":1,"y":2,"width":3}}"#)), None);
    assert_eq!(rect_of(&json(r#"{"rect":{"x":1,"y":2,"width":-3,"height":4}}"#)), None);
    assert_eq!(rect_of(&json("{}")), None);
    let wide = json(r#"{"rect":{"x":4294967297,"y":2147483648,"width":4294967298,"height":1}}"#);
    assert_eq!(rect_of(&wide), Some(Region { x: 1, y: i32::MIN, w: 2, h: 1 }));
}

#[test]
fn content_rects_fall_back_to_the_whole_node() {
    let base = r#""rect":{"x":10,"y":20,"width":300,"height":400}"#;
    let whole = Some(Region { x: 10, y: 20, w: 300, h: 400 });
    let with = |inner: &str| json(&format!("{{{base},\"window_rect\":{inner}}}"));
    assert_eq!(sway_content_rect(&json(&format!("{{{base}}}"))), whole);
    assert_eq!(sway_content_rect(&with(r#"{"x":1,"y":1,"width":0,"height":5}"#)), whole);
    assert_eq!(sway_content_rect(&with(r#"{"x":1,"y":1,"width":5}"#)), whole);
    assert_eq!(sway_content_rect(&with("7")), whole);
    assert_eq!(
        sway_content_rect(&with(r#"{"width":5,"height":6,"x":-2}"#)),
        Some(Region { x: 8, y: 20, w: 5, h: 6 })
    );
    assert_eq!(sway_content_rect(&json("{}")), None);
}

#[test]
fn floating_windows_are_hit_before_tiled_ones() {
    let v = json(
        r#"{"app_id":"outer","rect":{"x":0,"y":0,"width":9,"height":9},
            "nodes":[{"app_id":"tiled","rect":{"x":0,"y":0,"width":9,"height":9}}],
            "floating_nodes":[{"app_id":"floating","rect":{"x":0,"y":0,"width":5,"height":5}},
                              {"app_id":"gone","visible":false,
                               "rect":{"x":0,"y":0,"width":9,"height":9}}]}"#,
    );
    assert_eq!(sway_window_at(&v, 1, 1).unwrap().app_id, "floating");
    assert_eq!(sway_window_at(&v, 6, 6).unwrap().app_id, "tiled");
    assert!(sway_window_at(&v, 9, 0).is_none());
    let off = json(
        r#"{"visible":false,"app_id":"a","rect":{"x":0,"y":0,"width":9,"height":9}}"#,
    );
    assert!(sway_window_at(&off, 1, 1).is_none());
}

#[test]
fn x11_windows_go_by_their_class() {
    let v = json(
        r#"{"app_id":null,"window_properties":{"class":"XTerm"},
            "rect":{"x":0,"y":0,"width":9,"height":9}}"#,
    );
    let w = sway_window_at(&v, 0, 0).unwrap();
    assert_eq!(w.app_id, "XTerm");
    assert_eq!(w.title, "");
}

#[test]
fn regions_contain_their_left_and_top_edges_only() {
    let r = Region { x: -2, y: 3, w: 4, h: 1 };
    assert!(contains(&r, -2, 3));
    assert!(contains(&r, 1, 3));
    assert!(!contains(&r, 2, 3));
    assert!(!contains(&r, -3, 3));
    assert!(!contains(&r, 0, 4));
    assert!(!contains(&Region { x: 0, y: 0, w: 0, h: 9 }, 0, 0));
    assert!(contains(&Region { x: 0, y: 0, w: 0x8000_0000, h: 1 }, 0, 0));
    assert!(contains(&Region { x: i32::MAX, y: 0, w: 1, h: 1 }, i32::MAX, 0));
    assert!(contains(&Region { x: i32::MIN, y: 0, w: u32::MAX, h: 1 }, i32::MAX - 1, 0));
    assert!(!contains(&Region { x: i32::MIN, y: 0, w: u32::MAX, h: 1 }, i32::MAX, 0));
}

#[test]
fn active_windows_are_windows_or_named_containers() {
    let rect = r#""rect":{"x":1,"y":2,"width":3,"height":4}"#;
    let region = Some(Region { x: 1, y: 2, w: 3, h: 4 });
    let at = |props: &str| {
        let tree = format!("{{\"nodes\":[{{\"focused\":true,{rect},{props}}}]}}");
        sway_active_window_rect(&json(&tree))
    };
    assert_eq!(at(r#""app_id":"foot""#), region);
    assert_eq!(at(r#""window_properties":{}"#), region);
    assert_eq!(at(r#""type":"con","name":"x""#), region);
    assert_eq!(at(r#""type":"floating_con","name":"x""#), region);
    assert_eq!(at(r#""type":"con","name":null"#), None);
    assert_eq!(at(r#""type":"workspace","name":"1""#), None);
    assert_eq!(sway_active_window_rect(&json("{}")), None);
}

#[test]
fn sway_names_its_focused_output() {
    let v = json(
        r#"[{"name":"A","focused":false},{"name":"B","focused":true},
            {"name":"C","focused":true}]"#,
    );
    assert_eq!(sway_focused_output(&v).as_deref(), Some("B"));
    assert_eq!(sway_focused_output(&json("[]")), None);
    assert_eq!(sway_focused_output(&json("{}")), None);
    assert_eq!(sway_focused_output(&json(r#"[{"focused":true}]"#)), None);
}

#[test]
fn hypr_rects_need_both_pairs() {
    assert_eq!(hypr_active_window_rect(&json(r#"{"at":[1],"size":[2,3]}"#)), None);
    assert_eq!(hypr_active_window_rect(&json(r#"{"at":[1,2]}"#)), None);
    assert_eq!(hypr_active_window_rect(&json(r#"{"at":[1,2.5],"size":[2,3]}"#)), None);
    assert_eq!(
        hypr_active_window_rect(&json(r#"{"at":[-1,-2],"size":[-1,3]}"#)),
        Some(Region { x: -1, y: -2, w: u32::MAX, h: 3 })
    );
}

#[test]
fn backends_are_detected_in_order() {
    let env = |s, h, n| Environment { swaysock: s, hyprland_instance_signature: h, niri_socket: n };
    assert_eq!(detect(env(true, true, true)), Some(Backend::Sway));
    assert_eq!(detect(env(false, true, true)), Some(Backend::Hyprland));
    assert_eq!(detect(env(false, false, true)), Some(Backend::Niri));
    assert_eq!(detect(env(false, false, false)), None);
}

#[test]
fn backends_know_their_commands() {
    let args = |b: &dyn FocusBackend, q| b.request(q).map(|r| (r.program, r.args.join(" ")));
    let cmd = |p: &str, a: &str| Some((p.to_string(), a.to_string()));
    assert_eq!(args(&Sway, Query::FocusedOutput), cmd("swaymsg", "-t get_outputs -r"));
    assert_eq!(args(&Sway, Query::ActiveWindow), cmd("swaymsg", "-t get_tree -r"));
    assert_eq!(args(&Sway, Query::WindowAt), cmd("swaymsg", "-t get_tree -r"));
    assert_eq!(args(&Hyprland, Query::FocusedOutput), cmd("hyprctl", "-j monitors"));
    assert_eq!(args(&Hyprland, Query::ActiveWindow), cmd("hyprctl", "-j activewindow"));
    assert_eq!(args(&Hyprland, Query::WindowAt), None);
    assert_eq!(args(&Niri, Query::FocusedOutput), cmd("niri", "msg --json focused-output"));
    assert_eq!(args(&Niri, Query::ActiveWindow), None);
    assert_eq!(Backend::Sway.name(), "sway");
    assert_eq!(Backend::Hyprland.name(), "Hyprland");
    assert_eq!(Backend::Niri.name(), "niri");
}

#[test]
fn backends_read_their_replies() {
    assert_eq!(
        Backend::Hyprland.focused_output(&reply(HYPR_MONITORS)).as_deref(),
        Some("HDMI-A-1")
    );
    assert_eq!(
        Backend::Hyprland.active_window_rect(&reply(HYPR_ACTIVEWINDOW)),
        Some(Region { x: 120, y: 340, w: 800, h: 600 })
    );
    assert_eq!(Backend::Niri.focused_output(&reply("null")), None);
    assert_eq!(
        Backend::Niri.focused_output(&reply(r#"{"name":"eDP-1"}"#)).as_deref(),
        Some("eDP-1")
    );
    assert_eq!(Backend::Niri.active_window_rect(&reply(HYPR_ACTIVEWINDOW)), None);
    assert_eq!(Backend::Sway.window_at(&reply(SWAY_TREE), 200, 200).unwrap().app_id, "firefox");
    assert!(Backend::Hyprland.window_at(&reply(SWAY_TREE), 200, 200).is_none());
    assert!(Backend::Niri.window_at(&reply(SWAY_TREE), 200, 200).is_none());
    assert!(Backend::Sway.window_at(&None, 200, 200).is_none());
    assert_eq!(
        Backend::Sway.focused_output(&reply(r#"[{"name":"DP-1","focused":true}]"#)).as_deref(),
        Some("DP-1")
    );
    assert_eq!(Backend::Sway.active_window_rect(&reply(SWAY_TREE)), None);
}
