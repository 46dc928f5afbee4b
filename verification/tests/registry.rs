use tooltip_overlay::registry::{TooltipEntry, TooltipRegistry};

fn entry(trigger: &[u8], name: &[u8], body: &[u8]) -> TooltipEntry {
    TooltipEntry {
        trigger: trigger.to_vec(),
        name: name.to_vec(),
        body: body.to_vec(),
    }
}

#[test]
fn lookup_is_exact_byte_for_byte_match() {
    let mut reg = TooltipRegistry::new();
    reg.register(entry(b"text", b"text", b"Some body"));

    let hit = reg.lookup(b"text");
    assert!(hit.is_some());
    assert_eq!(hit.unwrap().body, b"Some body".to_vec());

    assert!(reg.lookup(b"Text").is_none());
    assert!(reg.lookup(b"texts").is_none());
    assert!(reg.lookup(b"tex").is_none());
    assert!(reg.lookup(b"").is_none());
}

#[test]
fn lookup_on_empty_registry_finds_nothing() {
    let reg = TooltipRegistry::new();
    assert!(reg.lookup(b"anything").is_none());
    assert_eq!(reg.len(), 0);
}

#[test]
fn register_replaces_an_entry_with_the_same_trigger() {
    let mut reg = TooltipRegistry::new();
    reg.register(entry(b"clickable", b"first", b"first body"));
    reg.register(entry(b"clickable", b"second", b"second body"));

    assert_eq!(reg.len(), 1);
    let hit = reg.lookup(b"clickable").unwrap();
    assert_eq!(hit.name, b"second".to_vec());
    assert_eq!(hit.body, b"second body".to_vec());
}

#[test]
fn register_keeps_distinct_triggers_apart() {
    let mut reg = TooltipRegistry::new();
    reg.register(entry(b"Some", b"Some", b"Some text"));
    reg.register(entry(b"text", b"text", b"Some text clickable"));
    reg.register(entry(b"clickable", b"clickable", b"Some text containing"));

    assert_eq!(reg.len(), 3);
    assert_eq!(reg.lookup(b"Some").unwrap().body, b"Some text".to_vec());
    assert_eq!(reg.lookup(b"text").unwrap().body, b"Some text clickable".to_vec());
    assert_eq!(
        reg.lookup(b"clickable").unwrap().body,
        b"Some text containing".to_vec()
    );
}
