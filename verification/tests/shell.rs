use softrender::editor::EditorState;
use softrender::editor::FileRef;
use softrender::surface::Buffer;
use softrender::surface::Context;
use softrender::surface::Surface;

#[test]
fn context_and_surface_creation_succeed() {
    let ctx: Context<u32> = Context::new(42).unwrap();
    assert_eq!(ctx.window, 42);
    let surface: Surface<(), u32> = Surface::new(&ctx, 42).unwrap();
    assert_eq!(surface.width, 1);
    assert_eq!(surface.height, 1);
    assert_eq!(surface.buffer, vec![0]);
}

#[test]
fn resize_rejects_zero_dimensions_and_keeps_the_prefix() {
    let ctx: Context<u32> = Context::new(1).unwrap();
    let mut surface: Surface<(), u32> = Surface::new(&ctx, 1).unwrap();
    assert!(surface.resize(0, 5).is_err());
    assert!(surface.resize(5, 0).is_err());
    assert_eq!(surface.width, 1);
    assert_eq!(surface.height, 1);

    assert!(surface.resize(3, 2).is_ok());
    assert_eq!(surface.width, 3);
    assert_eq!(surface.height, 2);
    assert_eq!(surface.buffer.len(), 6);
    for p in &surface.buffer {
        assert_eq!(*p, 0);
    }

    surface.buffer[5] = 0xABCDEF;
    assert!(surface.resize(2, 2).is_ok());
    assert_eq!(surface.buffer.len(), 4);
    assert!(surface.resize(3, 2).is_ok());
    assert_eq!(surface.buffer[5], 0);
}

#[test]
fn acquire_write_present_cycle() {
    let ctx: Context<u8> = Context::new(0).unwrap();
    let mut surface: Surface<(), u8> = Surface::new(&ctx, 0).unwrap();
    assert!(surface.resize(2, 2).is_ok());
    let mut buffer: Buffer = surface.buffer_mut().unwrap();
    assert_eq!(buffer.data.len(), 4);
    assert_eq!(surface.buffer.len(), 0);
    buffer.data[0] = 0x102030;
    assert!(buffer.present().is_ok());
}

#[test]
fn titles_follow_file_and_dirty_state() {
    let mut ed = EditorState::new();
    assert_eq!(ed.title(), "Simple CPU Editor - Untitled");
    ed.mark_changed();
    assert_eq!(ed.title(), "Simple CPU Editor - Untitled *");
    ed.record_saved(FileRef { path: String::from("/tmp/notes.txt"), name: String::from("notes.txt") });
    assert_eq!(ed.title(), "Simple CPU Editor - notes.txt");
    assert_eq!(ed.status, "Saved /tmp/notes.txt");
    assert!(!ed.dirty);
}

#[test]
fn new_file_resets_the_editor() {
    let mut ed = EditorState::new();
    ed.record_opened(
        FileRef { path: String::from("/tmp/a.md"), name: String::from("a.md") },
        String::from("hello"),
    );
    assert_eq!(ed.text, "hello");
    assert_eq!(ed.status, "Opened /tmp/a.md");
    ed.new_file();
    assert_eq!(ed.text, "");
    assert!(ed.current_file.is_none());
    assert_eq!(ed.status, "Created a new file");
    assert!(!ed.dirty);
}

#[test]
fn save_decisions_and_failures() {
    let mut ed = EditorState::new();
    assert!(ed.save_target().is_none());
    ed.record_saved(FileRef { path: String::from("/x/y.txt"), name: String::from("y.txt") });
    match ed.save_target() {
        Some(f) => assert_eq!(f.path, "/x/y.txt"),
        None => panic!("expected a save target"),
    }
    ed.mark_changed();
    ed.record_save_failed(String::from("disk full"));
    assert_eq!(ed.status, "Save failed: disk full");
    assert!(ed.dirty);
    ed.record_open_failed(String::from("no such file"));
    assert_eq!(ed.status, "Open failed: no such file");
}
