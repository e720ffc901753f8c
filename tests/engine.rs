use notesync::codec::{decode, decode_text, encode, DecodeError};
use notesync::model::{Model, Note};
use notesync::sync::{update_workspace, Application, EventRoute, FsEventKind, Intent, Role};

fn note(title: &str, body: &str) -> Note {
    Note { title: title.to_string(), body: body.to_string() }
}

fn same_models(a: &Model, b: &Model) -> bool {
    if a.len() != b.len() {
        return false;
    }
    for i in 0..a.len() {
        let k = a.key_at(i);
        let n = a.note_at(i);
        match b.get(k) {
            Some(m) => {
                if m.title != n.title || m.body != n.body {
                    return false;
                }
            }
            None => return false,
        }
    }
    true
}

#[test]
fn encode_writes_title_blank_line_body_newline() {
    assert_eq!(encode(&note("T", "B")), "T\n\nB\n");
    assert_eq!(encode(&note("", "")), "\n\n\n");
}

#[test]
fn decode_text_splits_title_and_body() {
    let n = decode_text("T\n\nB\n");
    assert_eq!(n.title, "T");
    assert_eq!(n.body, "B\n");
    let n = decode_text("Title\n\n\nline one\nline two");
    assert_eq!(n.title, "Title");
    assert_eq!(n.body, "line one\nline two");
}

#[test]
fn decode_text_without_newline_is_all_body() {
    let n = decode_text("just a body");
    assert_eq!(n.title, "");
    assert_eq!(n.body, "just a body");
    let n = decode_text("");
    assert_eq!(n.title, "");
    assert_eq!(n.body, "");
}

#[test]
fn decode_text_keeps_inner_blank_lines() {
    let n = decode_text("T\nB\n\nC");
    assert_eq!(n.title, "T");
    assert_eq!(n.body, "B\n\nC");
}

#[test]
fn decode_rejects_bytes_that_are_not_text() {
    let r = decode(&vec![0x54, 0xff, 0x0a, 0x42]);
    assert!(matches!(r, Err(DecodeError::NotText)));
}

#[test]
fn decode_reads_utf8_bytes() {
    let n = decode(&"Titel\n\nK\u{e4}se".as_bytes().to_vec()).unwrap();
    assert_eq!(n.title, "Titel");
    assert_eq!(n.body, "K\u{e4}se");
}

#[test]
fn round_trip_of_note_with_empty_body() {
    let n = decode_text(&encode(&note("Only a title", "")));
    assert_eq!(n.title, "Only a title");
    assert_eq!(n.body, "");
}

#[test]
fn read_back_adds_the_closing_newline_to_the_body() {
    let n = decode_text(&encode(&note("T", "Some text\nwith multiple lines")));
    assert_eq!(n.title, "T");
    assert_eq!(n.body, "Some text\nwith multiple lines\n");
}

#[test]
fn seed_model_holds_the_example_notes() {
    let m = Model::new();
    assert_eq!(m.len(), 2);
    let n1 = m.get(&"note_1.txt".to_string()).unwrap();
    assert_eq!(n1.title, "Example note 1");
    assert_eq!(n1.body, "Some text");
    let n2 = m.get(&"note_2.txt".to_string()).unwrap();
    assert_eq!(n2.title, "Example note 2");
    assert_eq!(n2.body, "Some text\nwith multiple lines");
    assert!(m.get(&"note_3.txt".to_string()).is_none());
}

#[test]
fn created_for_present_key_changes_nothing() {
    let mut app = Application::new_origin();
    let pushed = app.on_create_file("note_1.txt".to_string()).unwrap();
    assert!(same_models(&pushed, &Model::new()));
    assert!(same_models(&app.model, &Model::new()));
}

#[test]
fn created_for_new_key_adds_empty_note() {
    let mut app = Application::new_origin();
    let pushed = app.on_create_file("c.txt".to_string()).unwrap();
    assert_eq!(pushed.len(), 3);
    let n = pushed.get(&"c.txt".to_string()).unwrap();
    assert_eq!(n.title, "");
    assert_eq!(n.body, "");
}

#[test]
fn later_intent_for_same_key_wins() {
    let mut app = Application::new_origin();
    app.apply_intent(Intent::BodyChanged("k.txt".to_string(), note("one", "first")));
    app.apply_intent(Intent::BodyChanged("k.txt".to_string(), note("two", "second")));
    let n = app.model.get(&"k.txt".to_string()).unwrap();
    assert_eq!(n.title, "two");
    assert_eq!(n.body, "second");
    app.apply_intent(Intent::Created("k.txt".to_string()));
    let n = app.model.get(&"k.txt".to_string()).unwrap();
    assert_eq!(n.title, "two");
    assert_eq!(n.body, "second");
}

#[test]
fn mirror_edits_stay_local() {
    let origin = Application::new_origin();
    let mut mirror = Application::new_mirror(origin.model.duplicate());
    let pushed = mirror.apply_intent(Intent::BodyChanged("note_1.txt".to_string(), note("X", "Y")));
    assert!(pushed.is_none());
    assert!(same_models(&mirror.model, &origin.model));
    let local = mirror.local.get(&"note_1.txt".to_string()).unwrap();
    assert_eq!(local.title, "X");
    assert_eq!(local.body, "Y");
    assert!(same_models(&origin.model, &Model::new()));
}

#[test]
fn bootstrap_gives_mirror_the_origin_model() {
    let origin = Application::new_origin();
    assert_eq!(origin.role, Role::Origin);
    let mirror = Application::new_mirror(origin.model.duplicate());
    assert_eq!(mirror.role, Role::Mirror);
    assert!(same_models(&mirror.model, &origin.model));
    assert!(same_models(&mirror.model, &Model::new()));
}

#[test]
fn body_change_reaches_mirror_file() {
    let mut origin = Application::new_origin();
    let mut mirror = Application::new_mirror(origin.model.duplicate());
    let pushed = origin.apply_intent(Intent::BodyChanged("a.txt".to_string(), note("T", "B"))).unwrap();
    let writes = mirror.on_pulled(Some(pushed)).unwrap();
    assert_eq!(writes.len(), 3);
    let w = writes.iter().find(|w| w.key == "a.txt").unwrap();
    assert_eq!(w.contents, "T\n\nB\n");
}

#[test]
fn malformed_document_then_valid_one_yields_one_snapshot() {
    let mut mirror = Application::new_mirror(Model::new());
    let mut yielded = Vec::new();
    let mut next = Model::empty();
    next.set("b.txt".to_string(), note("bee", "buzz"));
    for doc in vec![None, Some(next)] {
        if let Some(writes) = mirror.on_pulled(doc) {
            yielded.push(writes);
        }
    }
    assert_eq!(yielded.len(), 1);
    assert_eq!(yielded[0].len(), 1);
    assert_eq!(yielded[0][0].key, "b.txt");
    assert_eq!(yielded[0][0].contents, "bee\n\nbuzz\n");
    assert_eq!(mirror.model.len(), 1);
}

#[test]
fn origin_ignores_pulled_snapshots() {
    let mut origin = Application::new_origin();
    assert!(origin.on_pulled(Some(Model::empty())).is_none());
    assert!(same_models(&origin.model, &Model::new()));
}

#[test]
fn modified_file_is_decoded_into_the_model() {
    let mut app = Application::new_origin();
    let pushed = app
        .on_modify_file_data("note_2.txt".to_string(), &b"New\n\nText".to_vec())
        .unwrap()
        .unwrap();
    let n = pushed.get(&"note_2.txt".to_string()).unwrap();
    assert_eq!(n.title, "New");
    assert_eq!(n.body, "Text");
}

#[test]
fn modified_file_that_is_not_text_is_dropped() {
    let mut app = Application::new_origin();
    let r = app.on_modify_file_data("note_2.txt".to_string(), &vec![0xc3, 0x28]);
    assert!(matches!(r, Err(DecodeError::NotText)));
    assert!(same_models(&app.model, &Model::new()));
}

#[test]
fn notifications_are_routed_by_kind() {
    assert_eq!(Application::route_notify_event(FsEventKind::Create), EventRoute::Created);
    assert_eq!(Application::route_notify_event(FsEventKind::ModifyData), EventRoute::BodyChanged);
    assert_eq!(Application::route_notify_event(FsEventKind::Access), EventRoute::Ignore);
    assert_eq!(Application::route_notify_event(FsEventKind::ModifyMetadata), EventRoute::Ignore);
    assert_eq!(Application::route_notify_event(FsEventKind::ModifyAny), EventRoute::Ignore);
    assert_eq!(Application::route_notify_event(FsEventKind::ModifyOther), EventRoute::Ignore);
    assert_eq!(Application::route_notify_event(FsEventKind::ModifyName), EventRoute::Unsupported);
    assert_eq!(Application::route_notify_event(FsEventKind::Remove), EventRoute::Unsupported);
    assert_eq!(Application::route_notify_event(FsEventKind::Any), EventRoute::Unsupported);
    assert_eq!(Application::route_notify_event(FsEventKind::Other), EventRoute::Unsupported);
}

#[test]
fn workspace_writes_cover_every_note() {
    let writes = update_workspace(&Model::new());
    assert_eq!(writes.len(), 2);
    let w1 = writes.iter().find(|w| w.key == "note_1.txt").unwrap();
    assert_eq!(w1.contents, "Example note 1\n\nSome text\n");
    let w2 = writes.iter().find(|w| w.key == "note_2.txt").unwrap();
    assert_eq!(w2.contents, "Example note 2\n\nSome text\nwith multiple lines\n");
    let init = Application::new_origin().init_workspace();
    assert_eq!(init.len(), 2);
    assert!(update_workspace(&Model::empty()).is_empty());
}
