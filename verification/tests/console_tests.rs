use lox_vm::console::{Area, Rect, Scrollback, Stdio};

#[test]
fn messages_arrive_newest_first_and_the_cap_holds() {
    let mut view = Scrollback::new(Rect { x: 0, y: 0, width: 10, height: 1 });
    for i in 0..12 {
        view.writeln(&format!("m{}", i));
    }
    // height 1 keeps ten screens of one message each.
    assert_eq!(view.messages.len(), 10);
    assert_eq!(view.messages[0], "m11");
    assert_eq!(view.messages[9], "m2");
}

#[test]
fn writes_append_to_the_newest_message() {
    let mut view = Scrollback::new(Rect { x: 0, y: 0, width: 10, height: 2 });
    view.write("1 + 2");
    view.write(" => ");
    view.write_char('3');
    assert_eq!(view.messages.len(), 1);
    assert_eq!(view.messages[0], "1 + 2 => 3");
    view.shift();
    view.write_char('x');
    assert_eq!(view.messages.len(), 2);
    assert_eq!(view.messages[0], "x");
    assert_eq!(view.messages[1], "1 + 2 => 3");
}

#[test]
fn containment_respects_the_region() {
    let view = Scrollback::new(Rect { x: 5, y: 2, width: 4, height: 3 });
    assert!(view.contains(5, 2));
    assert!(view.contains(8, 4));
    assert!(!view.contains(4, 2));
    assert!(!view.contains(9, 2));
    assert!(!view.contains(5, 5));
}

#[test]
fn scrolling_clamps_to_the_scrollback() {
    let mut view = Scrollback::new(Rect { x: 0, y: 0, width: 10, height: 2 });
    view.writeln("a");
    view.scroll(-1);
    assert_eq!(view.top_line(), 0, "everything fits, nothing to scroll");
    for msg in ["b", "c", "d", "e"] {
        view.writeln(msg);
    }
    view.scroll(-1);
    assert_eq!(view.top_line(), 1);
    view.scroll(-10);
    assert_eq!(view.top_line(), 3, "clamped to the oldest full screen");
    view.scroll(1);
    assert_eq!(view.top_line(), 2);
    view.scroll(10);
    assert_eq!(view.top_line(), 0, "clamped to the newest message");
}

#[test]
fn the_console_routes_messages_to_their_area() {
    let mut stdio = Stdio::new(80, 24);
    stdio.writeln("out", Area::Output).unwrap();
    stdio.writeln("dbg", Area::Debug).unwrap();
    stdio.write("put", Area::Output).unwrap();
    stdio.write_char('!', Area::Output).unwrap();
    assert_eq!(stdio.output.messages[0], "output!");
    assert_eq!(stdio.debug.messages[0], "dbg");
    stdio.endl(Area::Debug).unwrap();
    stdio.write("next", Area::Debug).unwrap();
    assert_eq!(stdio.debug.messages[0], "next");
    assert_eq!(stdio.debug.messages[1], "dbg");
    assert!(stdio.dirty);
}

#[test]
fn the_console_splits_the_screen_between_the_areas() {
    let stdio = Stdio::new(81, 24);
    assert_eq!(stdio.output.layout.x, 0);
    assert_eq!(stdio.output.layout.width, 40);
    assert_eq!(stdio.debug.layout.x, 40);
    assert_eq!(stdio.debug.layout.width, 41);
    assert_eq!(stdio.output.layout.y, 2);
    assert_eq!(stdio.output.layout.height, 19);
}
