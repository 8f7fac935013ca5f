//! The text editor's state: the buffer being edited, the file it came
//! from, a status line and a dirty flag.
//!
//! File dialogs and disk access live outside; this module makes the
//! decisions and records their outcomes. A file is carried as a plain
//! path string plus the display name shown in the window title.

use vstd::prelude::*;

verus! {

use vstd::string::StringExecFns;

/// A file the editor knows: its full path, and the short name shown in
/// the title bar.
pub struct FileRef {
    pub path: String,
    pub name: String,
}

/// The whole editor state.
pub struct EditorState {
    pub text: String,
    pub current_file: Option<FileRef>,
    pub status: String,
    pub dirty: bool,
}

/// The window title: the application name, the current file's short name
/// (or a placeholder), and a star when there are unsaved changes.
pub open spec fn title_spec(s: EditorState) -> Seq<char> {
    let name = match s.current_file {
        Some(f) => f.name@,
        None => "Untitled"@,
    };
    let star = if s.dirty {
        " *"@
    } else {
        Seq::<char>::empty()
    };
    "Simple CPU Editor - "@ + name + star
}

impl EditorState {
    /// A fresh editor: empty text, no file, empty status, not dirty.
    pub fn new() -> (s: EditorState)
        ensures
            s.text@ == Seq::<char>::empty(),
            s.current_file is None,
            s.status@ == Seq::<char>::empty(),
            !s.dirty,
    {
        EditorState {
            text: String::new(),
            current_file: None,
            status: String::new(),
            dirty: false,
        }
    }

    /// Compose the window title for the current state.
    pub fn title(&self) -> (t: String)
        ensures
            t@ == title_spec(*self),
    {
        let mut t = String::from_str("Simple CPU Editor - ");
        match &self.current_file {
            Some(f) => t.append(f.name.as_str()),
            None => t.append("Untitled"),
        }
        if self.dirty {
            t.append(" *");
        }
        t
    }

    /// Note that the text changed since the last save.
    pub fn mark_changed(&mut self)
        ensures
            final(self).dirty,
            final(self).text == old(self).text,
            final(self).current_file == old(self).current_file,
            final(self).status == old(self).status,
    {
        self.dirty = true;
    }

    /// Start over with an empty, unsaved file.
    pub fn new_file(&mut self)
        ensures
            final(self).text@ == Seq::<char>::empty(),
            final(self).current_file is None,
            final(self).status@ == "Created a new file"@,
            !final(self).dirty,
    {
        self.text = String::new();
        self.current_file = None;
        self.status = String::from_str("Created a new file");
        self.dirty = false;
    }

    /// Where a save should go: the current file if one is known, or
    /// nowhere — the caller must then ask the user for a destination.
    pub fn save_target(&self) -> (r: &Option<FileRef>)
        ensures
            r == &self.current_file,
    {
        &self.current_file
    }

    /// Record that the text was written to `file` successfully.
    pub fn record_saved(&mut self, file: FileRef)
        ensures
            final(self).text == old(self).text,
            final(self).current_file == Some(file),
            final(self).status@ == "Saved "@ + file.path@,
            !final(self).dirty,
    {
        let mut s = String::from_str("Saved ");
        s.append(file.path.as_str());
        self.status = s;
        self.current_file = Some(file);
        self.dirty = false;
    }

    /// Record that writing the file failed; the text stays unsaved.
    pub fn record_save_failed(&mut self, err: String)
        ensures
            final(self).text == old(self).text,
            final(self).current_file == old(self).current_file,
            final(self).status@ == "Save failed: "@ + err@,
            final(self).dirty == old(self).dirty,
    {
        let mut s = String::from_str("Save failed: ");
        s.append(err.as_str());
        self.status = s;
    }

    /// Record that `file` was read successfully; its contents replace the
    /// text.
    pub fn record_opened(&mut self, file: FileRef, content: String)
        ensures
            final(self).text == content,
            final(self).current_file == Some(file),
            final(self).status@ == "Opened "@ + file.path@,
            !final(self).dirty,
    {
        let mut s = String::from_str("Opened ");
        s.append(file.path.as_str());
        self.status = s;
        self.text = content;
        self.current_file = Some(file);
        self.dirty = false;
    }

    /// Record that reading a file failed; the editor is unchanged
    /// otherwise.
    pub fn record_open_failed(&mut self, err: String)
        ensures
            final(self).text == old(self).text,
            final(self).current_file == old(self).current_file,
            final(self).status@ == "Open failed: "@ + err@,
            final(self).dirty == old(self).dirty,
    {
        let mut s = String::from_str("Open failed: ");
        s.append(err.as_str());
        self.status = s;
    }
}

impl Default for EditorState {
    /// Same as [`EditorState::new`].
    fn default() -> (s: EditorState)
        ensures
            s.text@ == Seq::<char>::empty(),
            s.current_file is None,
            s.status@ == Seq::<char>::empty(),
            !s.dirty,
    {
        EditorState::new()
    }
}

} // verus!
