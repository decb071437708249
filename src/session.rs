//! The keyboard-driven editing session: which field gets focus next, which
//! keys add rows, commit or cancel, and when the error mark is shown.
use vstd::prelude::*;
use crate::document::{
    build, build_parsed_data, generate_xml, rows_model, xml_text, InputState, RowModel,
};

verus! {

/// A field of the form. Rows are named by their position.
#[derive(Clone, Copy, Debug, PartialEq, Eq, Structural)]
pub enum FieldId {
    Tag,
    AttrKey(usize),
    AttrValue(usize),
}

/// The keys that the session acts on, pressed with no modifier.
#[derive(Clone, Copy, Debug, PartialEq, Eq, Structural)]
pub enum KeyEvent {
    Escape,
    Tab,
    Enter,
}

/// What the host is asked to do after a key.
#[derive(Clone, Debug)]
pub enum Action {
    /// Nothing beyond drawing the session again.
    Nothing,
    /// Close the session and drop what was typed.
    Cancel,
    /// Write this text to the clipboard, then report how that went.
    Copy(String),
}

/// Why the element could not be put on the clipboard.
#[derive(Clone, Copy, Debug, PartialEq, Eq, Structural)]
pub enum ClipboardError {
    /// No clipboard could be opened.
    ClipboardUnavailable,
    /// The clipboard refused the text.
    ClipboardWriteFailed,
}

/// Whether the session ends after a clipboard write.
#[derive(Clone, Copy, Debug, PartialEq, Eq, Structural)]
pub enum Signal {
    /// The session stays open.
    Stay,
    /// The element was copied; the session ends.
    Commit,
}

/// The state of one editing session.
pub struct Session {
    pub input_state: InputState,
    pub has_parse_error: bool,
    /// The field to focus at the start of the next cycle.
    pub focus_next_frame: Option<FieldId>,
}

/// Whether Tab adds a row: from the tag while there are no rows, or from
/// the value of the last row.
pub open spec fn tab_adds_row(focused: Option<FieldId>, rows: nat) -> bool {
    match focused {
        Some(FieldId::Tag) => rows == 0,
        Some(FieldId::AttrValue(i)) => i + 1 == rows,
        _ => false,
    }
}

/// Tab from the tag with no rows adds a row; Tab from the value of a row
/// that is not the last adds none.
pub proof fn lemma_tab_rows(k: usize, rows: nat)
    ensures
        tab_adds_row(Some(FieldId::Tag), 0),
        k + 1 < rows ==> !tab_adds_row(Some(FieldId::AttrValue(k)), rows),
{
}

pub open spec fn empty_row() -> RowModel {
    (Seq::empty(), Seq::empty())
}

impl Session {
    /// A fresh session: nothing typed, no error, focus asked for the tag.
    pub fn new() -> (r: Session)
        ensures
            r.input_state@.0.len() == 0,
            r.input_state@.1.len() == 0,
            !r.has_parse_error,
            r.focus_next_frame == Some(FieldId::Tag),
    {
        let input_state = InputState { tag: String::new(), attributes: Vec::new() };
        assert(rows_model(input_state.attributes@) =~= Seq::<RowModel>::empty());
        Session { input_state, has_parse_error: false, focus_next_frame: Some(FieldId::Tag) }
    }

    /// Hands out the pending focus request, which is then cleared.
    pub fn take_focus_request(&mut self) -> (r: Option<FieldId>)
        ensures
            r == old(self).focus_next_frame,
            final(self).focus_next_frame.is_none(),
            final(self).input_state@ == old(self).input_state@,
            final(self).has_parse_error == old(self).has_parse_error,
    {
        let r = self.focus_next_frame;
        self.focus_next_frame = None;
        r
    }

    /// Appends an empty row, asks focus for its key and clears the error.
    pub fn add_row(&mut self)
        ensures
            final(self).input_state@.0 == old(self).input_state@.0,
            final(self).input_state@.1 == old(self).input_state@.1.push(empty_row()),
            final(self).focus_next_frame == Some(
                FieldId::AttrKey(old(self).input_state@.1.len() as usize),
            ),
            !final(self).has_parse_error,
    {
        let index = self.input_state.attributes.len();
        let ghost before = self.input_state.attributes@;
        self.input_state.attributes.push((String::new(), String::new()));
        assert(rows_model(self.input_state.attributes@) =~= rows_model(before).push(
            empty_row(),
        ));
        self.focus_next_frame = Some(FieldId::AttrKey(index));
        self.has_parse_error = false;
    }

    /// Removes the row at `index`; later rows move up. Clears the error.
    pub fn remove_row(&mut self, index: usize)
        requires
            index < old(self).input_state@.1.len(),
        ensures
            final(self).input_state@.0 == old(self).input_state@.0,
            final(self).input_state@.1 == old(self).input_state@.1.remove(index as int),
            final(self).focus_next_frame == old(self).focus_next_frame,
            !final(self).has_parse_error,
    {
        let ghost before = self.input_state.attributes@;
        self.input_state.attributes.remove(index);
        assert(rows_model(self.input_state.attributes@) =~= rows_model(before).remove(
            index as int,
        ));
        self.has_parse_error = false;
    }

    /// Replaces the tag text. Any edit clears the error.
    pub fn edit_tag(&mut self, text: String)
        ensures
            final(self).input_state@ == (text@, old(self).input_state@.1),
            final(self).focus_next_frame == old(self).focus_next_frame,
            !final(self).has_parse_error,
    {
        self.input_state.tag = text;
        self.has_parse_error = false;
    }

    /// Replaces the key text of the row at `index`. Any edit clears the error.
    pub fn edit_key(&mut self, index: usize, text: String)
        requires
            index < old(self).input_state@.1.len(),
        ensures
            final(self).input_state@ == (
                old(self).input_state@.0,
                old(self).input_state@.1.update(
                    index as int,
                    (text@, old(self).input_state@.1[index as int].1),
                ),
            ),
            final(self).focus_next_frame == old(self).focus_next_frame,
            !final(self).has_parse_error,
    {
        let ghost before = self.input_state.attributes@;
        let row = self.input_state.attributes.remove(index);
        self.input_state.attributes.insert(index, (text, row.1));
        assert(rows_model(self.input_state.attributes@) =~= rows_model(before).update(
            index as int,
            (text@, rows_model(before)[index as int].1),
        ));
        self.has_parse_error = false;
    }

    /// Replaces the value text of the row at `index`. Any edit clears the
    /// error.
    pub fn edit_value(&mut self, index: usize, text: String)
        requires
            index < old(self).input_state@.1.len(),
        ensures
            final(self).input_state@ == (
                old(self).input_state@.0,
                old(self).input_state@.1.update(
                    index as int,
                    (old(self).input_state@.1[index as int].0, text@),
                ),
            ),
            final(self).focus_next_frame == old(self).focus_next_frame,
            !final(self).has_parse_error,
    {
        let ghost before = self.input_state.attributes@;
        let row = self.input_state.attributes.remove(index);
        self.input_state.attributes.insert(index, (row.0, text));
        assert(rows_model(self.input_state.attributes@) =~= rows_model(before).update(
            index as int,
            (rows_model(before)[index as int].0, text@),
        ));
        self.has_parse_error = false;
    }

    /// Acts on a key pressed while `focused` holds focus. Escape cancels.
    /// Tab adds a row where `tab_adds_row` says so. Enter builds the
    /// document: on success the host is asked to copy its XML; on failure
    /// the error is set.
    pub fn handle_key(&mut self, focused: Option<FieldId>, key: KeyEvent) -> (r: Action)
        ensures
            final(self).input_state@.0 == old(self).input_state@.0,
            key == KeyEvent::Escape ==> {
                &&& r is Cancel
                &&& final(self).input_state@ == old(self).input_state@
                &&& final(self).has_parse_error == old(self).has_parse_error
                &&& final(self).focus_next_frame == old(self).focus_next_frame
            },
            key == KeyEvent::Tab ==> r is Nothing && if tab_adds_row(
                focused,
                old(self).input_state@.1.len(),
            ) {
                &&& final(self).input_state@.1 == old(self).input_state@.1.push(empty_row())
                &&& final(self).focus_next_frame == Some(
                    FieldId::AttrKey(old(self).input_state@.1.len() as usize),
                )
                &&& !final(self).has_parse_error
            } else {
                &&& final(self).input_state@ == old(self).input_state@
                &&& final(self).has_parse_error == old(self).has_parse_error
                &&& final(self).focus_next_frame == old(self).focus_next_frame
            },
            key == KeyEvent::Enter ==> {
                &&& final(self).input_state@ == old(self).input_state@
                &&& final(self).focus_next_frame == old(self).focus_next_frame
                &&& match build(old(self).input_state@) {
                    Ok(doc) => {
                        &&& r is Copy
                        &&& r->Copy_0@ == xml_text(doc)
                        &&& final(self).has_parse_error == old(self).has_parse_error
                    },
                    Err(_) => r is Nothing && final(self).has_parse_error,
                }
            },
    {
        match key {
            KeyEvent::Escape => Action::Cancel,
            KeyEvent::Tab => {
                let rows = self.input_state.attributes.len();
                let adds = match focused {
                    Some(FieldId::Tag) => rows == 0,
                    Some(FieldId::AttrValue(i)) => rows > 0 && i == rows - 1,
                    _ => false,
                };
                if adds {
                    self.add_row();
                }
                Action::Nothing
            },
            KeyEvent::Enter => match build_parsed_data(&self.input_state) {
                Ok(doc) => Action::Copy(generate_xml(&doc)),
                Err(_) => {
                    self.has_parse_error = true;
                    Action::Nothing
                },
            },
        }
    }

    /// Takes the outcome of the clipboard write that `Copy` asked for. A
    /// written text clears the error and ends the session; a failure sets
    /// the error and keeps it open, so that Enter can be tried again.
    pub fn finish_copy(&mut self, outcome: Result<(), ClipboardError>) -> (r: Signal)
        ensures
            final(self).input_state@ == old(self).input_state@,
            final(self).focus_next_frame == old(self).focus_next_frame,
            final(self).has_parse_error == outcome is Err,
            r == (if outcome is Ok {
                Signal::Commit
            } else {
                Signal::Stay
            }),
    {
        match outcome {
            Ok(()) => {
                self.has_parse_error = false;
                Signal::Commit
            },
            Err(_) => {
                self.has_parse_error = true;
                Signal::Stay
            },
        }
    }
}

} // verus!
