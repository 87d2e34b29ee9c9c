use vstd::prelude::*;
use tui_input::{Input, InputRequest};
use vstd::utf8::encode_utf8;

verus! {

#[verifier::external_type_specification]
#[verifier::external_body]
pub struct ExInput(Input);

/// The characters that a `tui_input::Input` holds.
pub uninterp spec fn input_text(input: Input) -> Seq<char>;

/// The cursor of a `tui_input::Input`: how many characters stand before it.
pub uninterp spec fn input_cursor(input: Input) -> nat;

/// The two edits that the prompt line makes.
#[derive(PartialEq, Eq, Structural, Clone, Copy, Debug)]
pub enum EditRequest {
    InsertChar(char),
    DeletePrevChar,
}

/// What one edit does to the text and the cursor of a line.
pub open spec fn edited(text: Seq<char>, cursor: nat, req: EditRequest) -> (Seq<char>, nat) {
    match req {
        EditRequest::InsertChar(c) => (
            text.take(cursor as int) + seq![c] + text.skip(cursor as int),
            cursor + 1,
        ),
        EditRequest::DeletePrevChar => if cursor == 0 {
            (text, cursor)
        } else {
            (text.remove(cursor - 1), (cursor - 1) as nat)
        },
    }
}

/// Calls `Input::default`, the derived default: an empty value with the
/// cursor at 0.
#[verifier::external_body]
pub(crate) fn input_default() -> (r: Input)
    ensures
        input_text(r) == Seq::<char>::empty(),
        input_cursor(r) == 0,
{
    Input::default()
}

/// Whether one more character fits in a line holding `text`: a `String`
/// holds at most `isize::MAX` bytes, and a character takes up to four.
pub open spec fn has_room(text: Seq<char>) -> bool {
    encode_utf8(text).len() + 4 <= isize::MAX
}

/// Calls `Input::handle` with `InputRequest::InsertChar` or
/// `InputRequest::DeletePrevChar`. `InsertChar` puts the character at the
/// cursor and moves the cursor past it; `DeletePrevChar` removes the
/// character before the cursor and moves the cursor back one, or does
/// nothing at the start of the line. The response that `handle` returns is
/// dropped. Growing the line past `isize::MAX` bytes would panic, so an
/// insertion asks for room.
#[verifier::external_body]
pub(crate) fn input_handle(input: &mut Input, req: EditRequest)
    requires
        input_cursor(*old(input)) <= input_text(*old(input)).len(),
        req matches EditRequest::InsertChar(_) ==> has_room(input_text(*old(input))),
    ensures
        (input_text(*final(input)), input_cursor(*final(input))) == edited(
            input_text(*old(input)),
            input_cursor(*old(input)),
            req,
        ),
{
    let r = match req {
        EditRequest::InsertChar(c) => InputRequest::InsertChar(c),
        EditRequest::DeletePrevChar => InputRequest::DeletePrevChar,
    };
    input.handle(r);
}

/// Calls `Input::value`, which returns the text held.
#[verifier::external_body]
pub(crate) fn input_value(input: &Input) -> (r: &str)
    ensures
        r@ == input_text(*input),
{
    input.value()
}

} // verus!
