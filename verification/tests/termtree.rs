use ports::termtree::{collapse, fit, render_entry, render_pfx, Entry, Tree};

fn leafs(names: &[&str]) -> Tree {
    let mut t = Tree::new();
    for n in names {
        t.leaf(n.to_string());
    }
    t
}

#[test]
fn leaf_and_node_build_a_tree() {
    let mut t = Tree::new();
    assert_eq!(t.len(), 0);
    t.leaf("a".to_string()).leaf("b".to_string());
    assert_eq!(t.len(), 2);
    t.node("nothing below".to_string(), Tree::new());
    assert_eq!(t.len(), 2);
    t.node("c".to_string(), leafs(&["d"])).leaf("e".to_string());
    assert_eq!(t.len(), 4);
    assert_eq!(t.render(None, false), "a\nb\nc / d\ne\n");
}

#[test]
fn children_get_lines_of_their_own() {
    let mut inner = Tree::new();
    inner.node(":22 tcp".to_string(), leafs(&["0.0.0.0", "::"]));
    inner.node(":80 tcp".to_string(), leafs(&["*"]));
    let mut t = Tree::new();
    t.node("sshd (pid 1 user root)".to_string(), inner);
    t.node("pid 2 user 0".to_string(), leafs(&["x", "y"]));
    assert_eq!(
        t.render(None, false),
        "sshd (pid 1 user root)\n\u{251c} :22 tcp\n\u{2502} \u{251c} 0.0.0.0\n\u{2502} \u{2514} ::\n\u{2514} :80 tcp / *\npid 2 user 0\n\u{251c} x\n\u{2514} y\n"
    );
}

#[test]
fn only_children_share_the_line() {
    let mut chain = Tree::new();
    chain.node("b".to_string(), leafs(&["c"]));
    let mut t = Tree::new();
    t.node("a".to_string(), chain);
    assert_eq!(t.render(None, false), "a / b / c\n");
    assert_eq!(t.render(Some(9), false), "a / b / c\n");
    assert_eq!(t.render(Some(8), false), "a\n\u{2514} b / c\n");
    assert_eq!(t.render(Some(4), false), "a\n\u{2514} b\n  \u{2514} c\n");
    assert_eq!(collapse(&leafs(&["x"]), None, false).as_deref(), Some(" / x"));
    assert_eq!(collapse(&leafs(&["x"]), Some(4), false).as_deref(), Some(" / x"));
    assert_eq!(collapse(&leafs(&["x"]), Some(3), false), None);
    assert_eq!(collapse(&leafs(&["x", "y"]), None, false), None);
    assert_eq!(collapse(&Tree::new(), None, false), None);
}

#[test]
fn long_text_is_cut_to_the_width() {
    assert_eq!(fit("listening", None), "listening");
    assert_eq!(fit("listening", Some(9)), "listening");
    assert_eq!(fit("listening", Some(5)), "list\u{2026}");
    assert_eq!(fit("listening", Some(1)), "\u{2026}");
    assert_eq!(fit("listening", Some(0)), "");
    assert_eq!(fit("", Some(0)), "");
    // wide characters take two columns each
    assert_eq!(fit("\u{4e2d}\u{6587}\u{5b57}", Some(6)), "\u{4e2d}\u{6587}\u{5b57}");
    assert_eq!(fit("\u{4e2d}\u{6587}\u{5b57}", Some(5)), "\u{4e2d}\u{6587}\u{2026}");
    assert_eq!(fit("\u{4e2d}\u{6587}\u{5b57}", Some(4)), "\u{4e2d}\u{2026}\u{2026}");
    let t = leafs(&["listening"]);
    assert_eq!(t.render(Some(5), false), "list\u{2026}\n");
}

#[test]
fn the_lead_shows_where_an_entry_hangs() {
    assert_eq!(render_pfx(&vec![]), "");
    assert_eq!(render_pfx(&vec![true]), "\u{2514} ");
    assert_eq!(render_pfx(&vec![false]), "\u{251c} ");
    assert_eq!(render_pfx(&vec![false, true, false]), "\u{2502}   \u{251c} ");
    assert_eq!(render_pfx(&vec![true, false, true]), "  \u{2502} \u{2514} ");
}

#[test]
fn colour_paints_the_lines_grey() {
    let mut t = Tree::new();
    t.node("a".to_string(), leafs(&["b", "c"]));
    let grey = |s: &str| format!("\u{1b}[38;5;244m{}\u{1b}[0m", s);
    assert_eq!(
        t.render(None, true),
        format!("{}a\n{}b\n{}c\n", grey(""), grey("\u{251c} "), grey("\u{2514} "))
    );
    let mut one = Tree::new();
    one.node("a".to_string(), leafs(&["b"]));
    assert_eq!(one.render(None, true), format!("{}a{}b\n", grey(""), grey(" / ")));
    assert_eq!(collapse(&leafs(&["b"]), None, true), Some(format!("{}b", grey(" / "))));
}

#[test]
fn an_entry_is_appended_to_what_is_there() {
    let mut t = Tree::new();
    t.node("a".to_string(), leafs(&["b", "c"]));
    let mut outer = Tree::new();
    outer.node("o".to_string(), t);
    assert_eq!(outer.render(None, false), "o\n\u{2514} a\n  \u{251c} b\n  \u{2514} c\n");
    let mut holder = Tree::new();
    holder.node("h".to_string(), leafs(&["z"]));
    let mut rendered = String::from("head\n");
    rendered.push_str(&holder.render(None, false));
    assert_eq!(rendered, "head\nh / z\n");
}

#[test]
fn an_entry_below_others_is_led_to() {
    let e = Entry { data: "x".to_string(), children: leafs(&["y", "z"]) };
    let mut out = String::from(">");
    render_entry(&e, None, false, &vec![false], &mut out);
    assert_eq!(out, ">\u{251c} x\n\u{2502} \u{251c} y\n\u{2502} \u{2514} z\n");
    let last = Entry { data: "w".to_string(), children: Tree::new() };
    render_entry(&last, Some(1), false, &vec![true, true], &mut out);
    assert!(out.ends_with("z\n  \u{2514} w\n"));
}
