//! The descriptor of a pack: two lines that name the talker and describe it.

use vstd::prelude::*;
use vstd::utf8::encode_utf8;

use crate::path::SamplePath;
use crate::table::append_bytes;

verus! {

/// The description that stands in the descriptor: the one given, or the
/// empty text where none was given.
pub open spec fn description_or_empty(description: Option<&str>) -> Seq<char> {
    match description {
        Some(text) => text@,
        None => Seq::empty(),
    }
}

/// The descriptor of a talker: a `NAME` line and a `DESC` line, each a key,
/// a tab, the value as it was given and a line feed.
pub open spec fn descriptor_of(name: Seq<char>, description: Seq<char>) -> Seq<char> {
    "NAME\t"@ + name + "\n"@ + "DESC\t"@ + description + "\n"@
}

/// The name of the descriptor's file.
pub open spec fn descriptor_name() -> Seq<u8> {
    encode_utf8("character.ini"@)
}

/// The text of the descriptor for the talker `name`. Without a description
/// the `DESC` line is still written, with nothing behind the tab. Tabs and
/// line breaks in the values are written as they are.
pub fn descriptor_text(name: &str, description: Option<&str>) -> (text: String)
    ensures
        text@ == descriptor_of(name@, description_or_empty(description)),
{
    let mut text = String::new();
    text.append("NAME\t");
    text.append(name);
    text.append("\n");
    text.append("DESC\t");
    match description {
        Some(described) => {
            text.append(described);
        },
        None => {},
    }
    text.append("\n");
    text
}

/// Where the descriptor of the pack at `root` is kept: in the pack's
/// directory, under a fixed name.
pub fn descriptor_path(root: &SamplePath) -> (path: SamplePath)
    ensures
        path@ == root@.push(descriptor_name()),
{
    let mut name: Vec<u8> = Vec::new();
    append_bytes(&mut name, "character.ini".as_bytes());
    root.join(name)
}

} // verus!
