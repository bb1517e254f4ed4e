//! The settings that the client keeps, and the grammar of the files that
//! hold them: one entry to a line, a name and a value with a space between
//! them, and lines that start with `#` as comments.

use crate::text::{
    has_prefix, lines, lines_of, push_char, split_at_char, split_once, starts_with,
};
use vstd::prelude::*;
use vstd::string::StringExecFns;

verus! {

#[derive(PartialEq, PartialOrd, Hash, Eq, Ord, Clone, Copy)]
pub enum SettingType {
    Int(IntSetting),
    Bool(BoolSetting),
    Float(FloatSetting),
    String(StringSetting),
}

#[derive(PartialEq, PartialOrd, Hash, Eq, Ord, Clone, Copy)]
pub enum IntSetting {
    MaxFps,
    FOV,
    MasterVolume,
    DefaultProtocolVersion,
}

#[derive(PartialEq, PartialOrd, Hash, Eq, Ord, Clone, Copy)]
pub enum BoolSetting {
    Vsync,
    CapeVisible,
    JacketVisible,
    RightSleeveVisible,
    LeftSleeveVisible,
    RightPantsVisible,
    LeftPantsVisible,
    HatVisible,
}

#[derive(PartialEq, PartialOrd, Hash, Eq, Ord, Clone, Copy)]
pub enum FloatSetting {
    MouseSense,
}

#[derive(PartialEq, PartialOrd, Hash, Eq, Ord, Clone, Copy)]
pub enum StringSetting {
    AuthClientToken,
    BackgroundImage,
    LogLevelFile,
    LogLevelTerm,
}

/// A line of a configuration file.
#[derive(Clone, Debug, PartialEq, Eq)]
pub enum Line {
    /// A comment or an empty line.
    Skipped,
    /// A name with nothing behind it.
    Broken,
    /// A name and, behind the first space, its value.
    Entry { name: String, arg: String },
}

/// A line of a configuration file as plain values.
pub enum LineView {
    Skipped,
    Broken,
    Entry { name: Seq<char>, arg: Seq<char> },
}

impl View for Line {
    type V = LineView;

    open spec fn view(&self) -> LineView {
        match self {
            Line::Skipped => LineView::Skipped,
            Line::Broken => LineView::Broken,
            Line::Entry { name, arg } => LineView::Entry { name: name@, arg: arg@ },
        }
    }
}

/// What a line of a configuration file says.
pub open spec fn line_of(line: Seq<char>) -> LineView {
    if starts_with(line, "#"@) || line.len() == 0 {
        LineView::Skipped
    } else {
        match split_at_char(line, ' ') {
            None => LineView::Broken,
            Some((name, arg)) => LineView::Entry { name, arg },
        }
    }
}

/// Lines as comments: each behind `# ` and ended by a line feed.
pub open spec fn comment_text(lines: Seq<Seq<char>>) -> Seq<char>
    decreases lines.len(),
{
    if lines.len() == 0 {
        Seq::empty()
    } else {
        comment_text(lines.drop_last()) + "# "@ + lines.last() + seq!['\n']
    }
}

/// The lines that an entry takes in a configuration file: its description
/// as comments, its name and value, and an empty line.
pub open spec fn entry_text(description: Seq<char>, name: Seq<char>, value: Seq<char>) -> Seq<
    char,
> {
    comment_text(lines_of(description)) + name + seq![' '] + value + seq!['\n', '\n']
}

/// Reads a line of a configuration file.
pub fn read_line(line: &str) -> (r: Line)
    ensures
        r@ == line_of(line@),
{
    if has_prefix(line, "#") || line.is_empty() {
        return Line::Skipped;
    }
    match split_once(line, ' ') {
        Some((name, arg)) => Line::Entry { name, arg },
        None => Line::Broken,
    }
}

/// Appends the lines of an entry to the text of a configuration file.
pub fn write_entry(text: &mut String, description: &str, name: &str, value: &str)
    ensures
        final(text)@ == old(text)@ + entry_text(description@, name@, value@),
{
    let ghost before = text@;
    let all = lines(description);
    let ghost wanted = lines_of(description@);
    let mut j: usize = 0;
    assert(wanted.take(0) =~= Seq::<Seq<char>>::empty());
    assert(before + Seq::<char>::empty() =~= before);
    while j < all.len()
        invariant
            j <= all.len(),
            all.deep_view() == wanted,
            text@ == before + comment_text(wanted.take(j as int)),
        decreases all.len() - j,
    {
        assert(all[j as int]@ == wanted[j as int]) by {
            assert(all.deep_view()[j as int] == all[j as int].deep_view());
        }
        text.append("# ");
        text.append(all[j].as_str());
        push_char(text, '\n');
        proof {
            assert(wanted.take(j + 1).drop_last() =~= wanted.take(j as int));
            assert(text@ =~= before + comment_text(wanted.take(j + 1)));
        }
        j += 1;
    }
    assert(wanted.take(all.len() as int) =~= wanted);
    text.append(name);
    push_char(text, ' ');
    text.append(value);
    push_char(text, '\n');
    push_char(text, '\n');
    assert(text@ =~= before + entry_text(description@, name@, value@));
}

} // verus!
