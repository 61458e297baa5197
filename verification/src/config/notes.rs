//! The lines of a configuration file that are passed over, so that they can be
//! reported.
use vstd::prelude::*;
use vstd::string::*;

use super::laws;
use super::parser::{self, MastConfig};
use crate::error::MastError;
use crate::text::{self, content_of_line, has_prefix, lines_of, same_text, split_kv};

verus! {

/// Why a line is passed over.
#[derive(Debug)]
pub enum ConfigNote {
    /// It names a log destination that is not known.
    UnknownLogDest(String),
    /// Its directive is not known.
    UnknownDirective(String),
}

/// What a `ConfigNote` holds.
#[verifier::ext_equal]
pub enum ConfigNoteView {
    UnknownLogDest(Seq<char>),
    UnknownDirective(Seq<char>),
}

impl View for ConfigNote {
    type V = ConfigNoteView;

    open spec fn view(&self) -> ConfigNoteView {
        match self {
            ConfigNote::UnknownLogDest(value) => ConfigNoteView::UnknownLogDest(value@),
            ConfigNote::UnknownDirective(key) => ConfigNoteView::UnknownDirective(key@),
        }
    }
}

/// What a list of notes holds.
pub open spec fn notes_view(v: Seq<(usize, ConfigNote)>) -> Seq<(nat, ConfigNoteView)> {
    Seq::new(v.len(), |i: int| (v[i].0 as nat, v[i].1@))
}

/// The keys of the directives that are known.
pub open spec fn is_known(key: Seq<char>) -> bool {
    ||| key == "listener"@
    ||| key == "cafile"@
    ||| key == "certfile"@
    ||| key == "keyfile"@
    ||| key == "websocket"@
    ||| key == "protocol"@
    ||| key == "password_file"@
    ||| key == "acl_file"@
    ||| key == "allow_anonymous"@
    ||| key == "log_type"@
    ||| key == "log_level"@
    ||| key == "log_dest"@
    ||| key == "persistence"@
    ||| key == "persistence_location"@
    ||| key == "max_connections"@
    ||| key == "max_inflight_messages"@
    ||| key == "max_queued_messages"@
}

/// Why the line is passed over, if it is and is no remark.
pub open spec fn note_on(line: Seq<char>) -> Option<ConfigNoteView> {
    let kv = text::key_value(text::trim(line));
    if text::is_remark(line) {
        None
    } else if kv.0 == "log_dest"@ && parser::dest_named(kv.1) is None {
        Some(ConfigNoteView::UnknownLogDest(kv.1))
    } else if !is_known(kv.0) {
        Some(ConfigNoteView::UnknownDirective(kv.0))
    } else {
        None
    }
}

/// The lines of a file that are read: all of them, or those before the first
/// that is refused.
pub open spec fn lines_read(content: Seq<char>) -> Seq<Seq<char>> {
    match parser::config_of(content) {
        Ok(_) => text::lines(content),
        Err((n, _)) => text::lines(content).take(n - 1),
    }
}

/// The notes on a file, each with the number of its line.
pub open spec fn notes_on(content: Seq<char>) -> Seq<(nat, ConfigNoteView)> {
    text::noted(lines_read(content), |line: Seq<char>| note_on(line))
}

fn is_known_key(key: &str) -> (b: bool)
    ensures
        b == is_known(key@),
{
    same_text(key, "listener") || same_text(key, "cafile") || same_text(key, "certfile")
        || same_text(key, "keyfile") || same_text(key, "websocket") || same_text(key, "protocol")
        || same_text(key, "password_file") || same_text(key, "acl_file") || same_text(
        key,
        "allow_anonymous",
    ) || same_text(key, "log_type") || same_text(key, "log_level") || same_text(key, "log_dest")
        || same_text(key, "persistence") || same_text(key, "persistence_location") || same_text(
        key,
        "max_connections",
    ) || same_text(key, "max_inflight_messages") || same_text(key, "max_queued_messages")
}

fn note_of(raw: &str) -> (r: Option<ConfigNote>)
    ensures
        match r {
            Some(note) => note_on(raw@) == Some(note@),
            None => note_on(raw@) is None,
        },
{
    match content_of_line(raw) {
        None => None,
        Some(line) => {
            let (key, value) = split_kv(line);
            if same_text(key, "log_dest") && !same_text(value, "stdout") && !same_text(
                value,
                "stderr",
            ) && !has_prefix(value, "file ") {
                Some(ConfigNote::UnknownLogDest(value.to_string()))
            } else if !is_known_key(key) {
                Some(ConfigNote::UnknownDirective(key.to_string()))
            } else {
                None
            }
        },
    }
}

/// The lines of a configuration file that are passed over without being
/// remarks, in their order, each with its number. Lines from the first that is
/// refused on are not read.
pub fn skipped_lines(content: &str) -> (v: Vec<(usize, ConfigNote)>)
    ensures
        notes_view(v@) == notes_on(content@),
{
    let ls = lines_of(content);
    let ghost texts = text::lines(content@);
    let ghost f = |line: Seq<char>| note_on(line);
    proof {
        laws::law_the_first_refused_line_is_reported(content@);
    }
    let end: usize = match MastConfig::parse(content) {
        Err(MastError::ConfigParse { line, .. }) => line - 1,
        _ => ls.len(),
    };
    let mut v: Vec<(usize, ConfigNote)> = Vec::new();
    let mut i: usize = 0;
    assert(notes_view(v@) =~= text::noted(texts.take(0), f));
    while i < end
        invariant
            i <= end <= ls.len(),
            text::texts(ls@) == texts,
            f == (|line: Seq<char>| note_on(line)),
            notes_view(v@) == text::noted(texts.take(i as int), f),
        decreases end - i,
    {
        let ghost before = notes_view(v@);
        assert(texts[i as int] == ls@[i as int]@);
        assert(texts.take(i + 1).drop_last() =~= texts.take(i as int));
        if let Some(note) = note_of(ls[i]) {
            let ghost one = ((i + 1) as nat, note@);
            v.push((i + 1, note));
            assert(notes_view(v@) =~= before.push(one));
        }
        i += 1;
    }
    assert(texts.take(texts.len() as int) =~= texts);
    v
}

} // verus!
