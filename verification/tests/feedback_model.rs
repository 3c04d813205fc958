use lexfront::error;
use lexfront::fb;
use lexfront::feedback::error::Error as FbError;
use lexfront::feedback::error::Message as FbMessage;
use lexfront::feedback::loc::Cursor;
use lexfront::feedback::loc::Loc;
use lexfront::feedback::loc::Span;
use lexfront::fb::error::Error as DiagError;
use lexfront::fb::error::Message as DiagMessage;
use lexfront::source;

#[test]
fn diagnostic_accumulates_messages_in_order() {
    let e = DiagError::new()
        .with_message(DiagMessage::new(String::from("first")))
        .with_message(DiagMessage::new(String::from("second")));
    assert_eq!(e.message_count(), 2);
    assert_eq!(e.message(0).text(), "first");
    assert_eq!(e.message(1).text(), "second");
}

#[test]
fn message_refs_keep_attachment_order() {
    let mut sources = source::Manager::new();
    let sid = sources.add(String::from("memory:unit"));
    let here = Loc::FilePos(sid, Cursor::new(0, 0));
    let there = Loc::FileSpan(sid, Span::new(Cursor::new(1, 0), Cursor::new(1, 4)));
    let m = DiagMessage::new(String::from("text"))
        .with_ref(String::from("opened here"), here)
        .with_ref(String::from("see"), there);
    assert_eq!(m.ref_count(), 2);
    assert_eq!(m.ref_desc(0), "opened here");
    assert_eq!(m.ref_desc(1), "see");
    assert_eq!(m.ref_loc(0), here);
    assert_eq!(m.ref_loc(1), there);
}

#[test]
fn legacy_error_shape_appends_with_msg() {
    let e = FbError::new().with_msg(FbMessage::new(String::from("only")));
    assert_eq!(e.message_count(), 1);
    assert_eq!(e.message(0).text(), "only");
    assert_eq!(e.message(0).ref_count(), 0);
}

#[test]
fn composed_error_renders_oldest_first() {
    let loc = fb::Loc::new_filewide();
    let e = error::Error::new()
        .compose(loc, String::from("inner"))
        .compose(loc, String::from("outer"));
    let pieces = e.render_pieces();
    assert_eq!(pieces.len(), 2);
    assert_eq!(pieces[0].1, "inner");
    assert_eq!(pieces[1].1, "outer");
}

#[test]
fn cursor_displays_one_based() {
    let c = Cursor::new(0, 0);
    assert_eq!(c.line(), 1);
    assert_eq!(c.column(), 1);
    let c2 = Cursor::new(9, 41);
    assert_eq!(c2.line(), 10);
    assert_eq!(c2.column(), 42);
}

#[test]
fn span_keeps_its_ends() {
    let a = Cursor::new(1, 2);
    let b = Cursor::new(3, 4);
    let s = Span::new(a, b);
    assert_eq!(s.first(), a);
    assert_eq!(s.last(), b);
}

#[test]
fn letterbox_keeps_letters_at_or_above_threshold() {
    let mut lb = fb::Letterbox::new();
    lb.post(fb::SEVERITY_ERROR, fb::Letter::new(String::from("kept")));
    lb.post(fb::SEVERITY_TRACE, fb::Letter::new(String::from("dropped")));
    lb.post(fb::SEVERITY_INFO, fb::Letter::new(String::from("kept too")));
    assert_eq!(lb.letter_count(), 2);
}

#[test]
fn feedback_manager_starts_empty() {
    let _m = fb::FeedbackManager::new();
    let lb = fb::Letterbox::new();
    assert_eq!(lb.letter_count(), 0);
}

#[test]
fn display_positions_default_to_origin() {
    let p = fb::Pos::new_default();
    assert_eq!(p, fb::Pos::new(0, 0));
    let wide = fb::Loc::new_filewide();
    assert_eq!(wide, fb::Loc::SpanLoc(fb::Span::new(fb::Pos::new(0, 0), fb::Pos::new(0, 0))));
}

#[test]
fn source_registry_deduplicates_paths() {
    let mut m = source::Manager::new();
    let a = m.add(String::from("unit/a"));
    let b = m.add(String::from("unit/b"));
    let a2 = m.add(String::from("unit/a"));
    assert_eq!(a, a2);
    assert_ne!(a, b);
    assert_eq!(m.get(a).filepath(), "unit/a");
    assert_eq!(m.get(b).filepath(), "unit/b");
}
