use tooltip_overlay::overlay::{render_overlay, Overlay, OverlayStack, RenderItem};
use tooltip_overlay::registry::{TooltipEntry, TooltipRegistry};

fn sample_registry() -> TooltipRegistry {
    let mut reg = TooltipRegistry::new();
    reg.register(TooltipEntry {
        trigger: b"clickable".to_vec(),
        name: b"clickable".to_vec(),
        body: b"Some text containing".to_vec(),
    });
    reg
}

fn plain(t: &[u8]) -> RenderItem {
    RenderItem::Plain(t.to_vec())
}

fn bare_overlay(handle: u64, z: u64, closable: bool) -> Overlay {
    let reg = TooltipRegistry::new();
    render_overlay(&reg, b"", 0, 0, closable, z, handle)
}

#[test]
fn render_marks_only_registered_words_clickable() {
    let reg = sample_registry();
    let o = render_overlay(&reg, b"Some text containing clickable words", 0, 0, false, 1, 7);

    assert_eq!(o.handle, 7);
    assert_eq!(o.z, 1);
    assert!(!o.closable);
    assert_eq!(o.rows.len(), 1);
    let expected = vec![
        plain(b"Some"),
        plain(b" "),
        plain(b"text"),
        plain(b" "),
        plain(b"containing"),
        plain(b" "),
        RenderItem::Clickable {
            trigger: b"clickable".to_vec(),
            label: b"clickable".to_vec(),
        },
        plain(b" "),
        plain(b"words"),
    ];
    assert_eq!(o.rows[0], expected);
}

#[test]
fn render_labels_clickable_words_with_the_display_name() {
    let mut reg = TooltipRegistry::new();
    reg.register(TooltipEntry {
        trigger: b"word".to_vec(),
        name: b"A word".to_vec(),
        body: b"body".to_vec(),
    });
    let o = render_overlay(&reg, b"word", 0, 0, true, 1, 0);
    assert_eq!(o.rows.len(), 1);
    assert_eq!(
        o.rows[0],
        vec![RenderItem::Clickable {
            trigger: b"word".to_vec(),
            label: b"A word".to_vec(),
        }]
    );
}

#[test]
fn render_stacks_lines_as_rows() {
    let reg = sample_registry();
    let o = render_overlay(&reg, b"one line\n\nanother line", 3, 4, true, 2, 9);
    assert_eq!(o.anchor_x, 3);
    assert_eq!(o.anchor_y, 4);
    assert_eq!(o.rows.len(), 3);
    assert_eq!(o.rows[0], vec![plain(b"one"), plain(b" "), plain(b"line")]);
    assert_eq!(o.rows[1], Vec::<RenderItem>::new());
    assert_eq!(o.rows[2], vec![plain(b"another"), plain(b" "), plain(b"line")]);
}

#[test]
fn stack_pop_removes_exactly_the_last_pushed_overlay() {
    let mut stack = OverlayStack::new();
    stack.push(bare_overlay(1, 1, true));
    stack.push(bare_overlay(2, 2, true));

    let popped = stack.pop_and_destroy();
    assert_eq!(popped.unwrap().handle, 2);
    assert_eq!(stack.len(), 1);
    assert_eq!(stack.top().unwrap().handle, 1);
}

#[test]
fn stack_pop_on_empty_stack_removes_nothing() {
    let mut stack = OverlayStack::new();
    assert!(stack.pop_and_destroy().is_none());
    assert_eq!(stack.len(), 0);
}

#[test]
fn stack_clear_forgets_everything() {
    let mut stack = OverlayStack::new();
    stack.push(bare_overlay(1, 1, true));
    stack.push(bare_overlay(2, 2, true));
    stack.clear();
    assert_eq!(stack.len(), 0);
    assert!(stack.top().is_none());
}
