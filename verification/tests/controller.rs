use tooltip_overlay::controller::{CancelOutcome, Screen, UiContext};
use tooltip_overlay::overlay::RenderItem;
use tooltip_overlay::registry::{TooltipEntry, TooltipRegistry};

fn scenario_registry() -> TooltipRegistry {
    let mut reg = TooltipRegistry::new();
    reg.register(TooltipEntry {
        trigger: b"clickable".to_vec(),
        name: b"clickable".to_vec(),
        body: b"Some text containing".to_vec(),
    });
    reg
}

fn scenario_context() -> UiContext {
    UiContext::new(
        scenario_registry(),
        b"Some text containing clickable words".to_vec(),
    )
}

#[test]
fn context_starts_on_main_with_nothing_open() {
    let ctx = scenario_context();
    assert_eq!(ctx.screen(), Screen::Main);
    assert_eq!(ctx.stack_len(), 0);
    assert!(ctx.root_overlay().is_none());
    assert!(!ctx.quit_requested());
}

#[test]
fn play_switches_main_to_gameplay() {
    let mut ctx = scenario_context();
    ctx.press_play();
    assert_eq!(ctx.screen(), Screen::Gameplay);
}

#[test]
fn quit_requests_termination() {
    let mut ctx = scenario_context();
    ctx.press_quit();
    assert!(ctx.quit_requested());
}

#[test]
fn entering_help_opens_a_non_closable_root() {
    let mut ctx = scenario_context();
    ctx.press_help();
    assert_eq!(ctx.screen(), Screen::Help);
    assert_eq!(ctx.stack_len(), 0);
    let root = ctx.root_overlay().unwrap();
    assert!(!root.closable);
    assert_eq!(root.z, 1);
    assert_eq!(root.anchor_x, 0);
    assert_eq!(root.anchor_y, 0);
    assert_eq!(root.rows.len(), 1);
    assert!(matches!(
        &root.rows[0][6],
        RenderItem::Clickable { trigger, label }
            if trigger == &b"clickable".to_vec() && label == &b"clickable".to_vec()
    ));
}

#[test]
fn help_action_outside_main_does_nothing() {
    let mut ctx = scenario_context();
    ctx.press_help();
    let handle_before = ctx.root_overlay().unwrap().handle;
    ctx.press_help();
    assert_eq!(ctx.screen(), Screen::Help);
    assert_eq!(ctx.root_overlay().unwrap().handle, handle_before);
}

#[test]
fn cancel_right_after_entering_help_returns_to_main() {
    let mut ctx = scenario_context();
    ctx.press_help();
    let outcome = ctx.press_cancel();
    assert_eq!(outcome, CancelOutcome::ExitHelp);
    assert_eq!(ctx.screen(), Screen::Main);
    assert!(ctx.root_overlay().is_none());
    assert_eq!(ctx.stack_len(), 0);
}

#[test]
fn root_overlay_is_never_on_the_stack() {
    let mut ctx = scenario_context();
    ctx.press_help();
    let root_handle = ctx.root_overlay().unwrap().handle;
    ctx.activate_word(b"clickable", Some((1, 1)));
    ctx.activate_word(b"clickable", Some((2, 2)));
    for o in &ctx.stack.items {
        assert!(o.closable);
        assert_ne!(o.handle, root_handle);
    }
    assert!(!ctx.root_overlay().unwrap().closable);
}

#[test]
fn cancel_outside_help_is_ignored() {
    let mut ctx = scenario_context();
    assert_eq!(ctx.press_cancel(), CancelOutcome::Ignored);
    assert_eq!(ctx.screen(), Screen::Main);
}

#[test]
fn activating_a_registered_word_opens_an_anchored_overlay() {
    let mut ctx = scenario_context();
    ctx.press_help();
    let spawned = ctx.activate_word(b"clickable", Some((50, 60)));
    assert!(spawned);
    assert_eq!(ctx.stack_len(), 1);
    let top = ctx.top_overlay().unwrap();
    assert!(top.closable);
    assert_eq!(top.anchor_x, 50);
    assert_eq!(top.anchor_y, 60);
    assert_eq!(top.z, 1);
    // The new overlay renders the entry's body, "Some text containing".
    assert_eq!(top.rows.len(), 1);
    assert!(matches!(&top.rows[0][0], RenderItem::Plain(t) if t == &b"Some".to_vec()));
    assert!(matches!(&top.rows[0][2], RenderItem::Plain(t) if t == &b"text".to_vec()));
    assert!(matches!(&top.rows[0][4], RenderItem::Plain(t) if t == &b"containing".to_vec()));
}

#[test]
fn activation_without_a_pointer_position_is_discarded() {
    let mut ctx = scenario_context();
    ctx.press_help();
    assert!(!ctx.activate_word(b"clickable", None));
    assert_eq!(ctx.stack_len(), 0);
}

#[test]
fn activation_of_an_unregistered_word_is_discarded() {
    let mut ctx = scenario_context();
    ctx.press_help();
    assert!(!ctx.activate_word(b"words", Some((1, 2))));
    assert_eq!(ctx.stack_len(), 0);
}

#[test]
fn activation_outside_help_is_discarded() {
    let mut ctx = scenario_context();
    assert!(!ctx.activate_word(b"clickable", Some((1, 2))));
    assert_eq!(ctx.stack_len(), 0);
}

#[test]
fn each_opened_overlay_stacks_strictly_above_the_open_ones() {
    let mut ctx = scenario_context();
    ctx.press_help();
    ctx.activate_word(b"clickable", Some((10, 10)));
    ctx.activate_word(b"clickable", Some((20, 20)));
    assert_eq!(ctx.top_overlay().unwrap().z, 2);
    ctx.activate_word(b"clickable", Some((30, 30)));
    assert_eq!(ctx.top_overlay().unwrap().z, 3);
    // Popping and reopening keeps the new overlay above all still open.
    ctx.press_cancel();
    ctx.press_cancel();
    ctx.activate_word(b"clickable", Some((40, 40)));
    assert_eq!(ctx.stack_len(), 2);
    assert_eq!(ctx.top_overlay().unwrap().z, 2);
}

#[test]
fn cancel_pops_one_overlay_and_stays_in_help_until_the_stack_is_empty() {
    let mut ctx = scenario_context();
    ctx.press_help();
    assert!(ctx.activate_word(b"clickable", Some((50, 60))));
    assert!(ctx.activate_word(b"clickable", Some((70, 80))));
    assert_eq!(ctx.stack_len(), 2);
    let second_handle = ctx.top_overlay().unwrap().handle;

    let first_pop = ctx.press_cancel();
    assert_eq!(first_pop, CancelOutcome::Popped(second_handle));
    assert_eq!(ctx.stack_len(), 1);
    assert_eq!(ctx.screen(), Screen::Help);

    let second_pop = ctx.press_cancel();
    assert!(matches!(second_pop, CancelOutcome::Popped(_)));
    assert_eq!(ctx.stack_len(), 0);
    assert_eq!(ctx.screen(), Screen::Help);

    let third = ctx.press_cancel();
    assert_eq!(third, CancelOutcome::ExitHelp);
    assert_eq!(ctx.screen(), Screen::Main);
    assert!(ctx.root_overlay().is_none());
}
