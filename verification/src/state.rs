//! Persistent records.
//!
//! The records that a program keeps in its accounts are declared as blocks
//! of fields inside one declaration:
//!
//! ```text
//! define_state! {
//!     pub struct Counter {
//!         pub owner: [u8; 32],
//!         pub count: [u8; 8],
//!     }
//! }
//! ```
//!
//! The order and the types of the fields are the layout of the stored data.
//! They are taken over as they are written.

use crate::extract::{bracketed_from, extract_bracketed};
use crate::text::{
    char_position, chars_of, contains_char, find_from, has_char, has_prefix, index_of,
    lemma_find_from, lines, position_from, same_text, split_lines, split_words, starts_with,
    string_of, trim, trim_end_matches, trim_end_of, trim_whitespace, views, words, CharClass,
};
use vstd::prelude::*;
use vstd::slice::slice_subrange;

verus! {

/// What a [`StateFieldMeta`] stands for.
pub struct RecordField {
    pub name: Seq<char>,
    pub field_type: Seq<char>,
}

/// What a [`StateMeta`] stands for.
pub struct StateRecord {
    pub name: Seq<char>,
    pub fields: Seq<RecordField>,
}

/// One field of a record.
#[derive(Clone, Debug)]
pub struct StateFieldMeta {
    /// The field's name.
    pub name: String,
    /// The field's type, as it is written in the declaration.
    pub field_type: String,
}

/// One record.
#[derive(Clone, Debug)]
pub struct StateMeta {
    /// The record's name.
    pub name: String,
    /// The fields, in the declared order.
    pub fields: Vec<StateFieldMeta>,
}

impl View for StateFieldMeta {
    type V = RecordField;

    open spec fn view(&self) -> RecordField {
        RecordField { name: self.name@, field_type: self.field_type@ }
    }
}

/// What a vector of fields stands for.
pub open spec fn record_fields_of(fields: Seq<StateFieldMeta>) -> Seq<RecordField> {
    Seq::new(fields.len(), |i: int| fields[i]@)
}

impl View for StateMeta {
    type V = StateRecord;

    open spec fn view(&self) -> StateRecord {
        StateRecord { name: self.name@, fields: record_fields_of(self.fields@) }
    }
}

/// What a vector of records stands for.
pub open spec fn records_of(records: Seq<StateMeta>) -> Seq<StateRecord> {
    Seq::new(records.len(), |i: int| records[i]@)
}

/// The name of the record that a line begins: the third word of a line whose
/// first two are `pub` and `struct`, without the braces at its end.
pub open spec fn struct_name_of(line: Seq<char>) -> Option<Seq<char>> {
    let parts = words(line);
    if parts.len() >= 3 && parts[0] == "pub"@ && parts[1] == "struct"@ {
        Some(trim(trim_end_matches(parts[2], CharClass::Exactly('{'))))
    } else {
        None
    }
}

/// `s` without the prefix `p`, if it begins with it.
pub open spec fn strip_prefix(s: Seq<char>, p: Seq<char>) -> Option<Seq<char>> {
    if starts_with(s, p) {
        Some(s.subrange(p.len() as int, s.len() as int))
    } else {
        None
    }
}

/// The field that a line declares: its name stands between `pub ` and the
/// first colon, its type after the colon, without the commas that end the
/// line. A line without a colon, or whose part before it does not begin with
/// `pub `, declares nothing.
pub open spec fn record_field_of_line(line: Seq<char>) -> Option<RecordField> {
    match index_of(line, ':') {
        None => None,
        Some(i) => match strip_prefix(trim(line.subrange(0, i)), "pub "@) {
            None => None,
            Some(name) => Some(
                RecordField {
                    name: trim(name),
                    field_type: trim_end_matches(
                        trim(line.subrange(i + 1, line.len() as int)),
                        CharClass::Exactly(','),
                    ),
                },
            ),
        },
    }
}

/// What has been read of a declaration: the records that are closed, and the
/// one that is open.
pub struct RecordsState {
    pub closed: Seq<StateRecord>,
    pub open: Option<StateRecord>,
}

/// What one line does to the state.
///
/// The line is trimmed first. A line that begins with `pub struct`, holds an
/// opening brace and names a record opens that record; one that was open is
/// given up. A line that is a closing brace closes the open record. Inside a
/// record a line that begins with `pub ` and holds a colon declares the next
/// field.
pub open spec fn records_step(st: RecordsState, raw: Seq<char>) -> RecordsState {
    let line = trim(raw);
    if starts_with(line, "pub struct"@) && contains_char(line, '{') {
        match struct_name_of(line) {
            Some(name) => RecordsState {
                open: Some(StateRecord { name, fields: Seq::empty() }),
                ..st
            },
            None => st,
        }
    } else if line == "}"@ && st.open is Some {
        RecordsState { closed: st.closed.push(st.open->Some_0), open: None }
    } else if st.open is Some && starts_with(line, "pub "@) && contains_char(line, ':') {
        match record_field_of_line(line) {
            Some(field) => RecordsState {
                open: Some(
                    StateRecord { fields: st.open->Some_0.fields.push(field), ..st.open->Some_0 },
                ),
                ..st
            },
            None => st,
        }
    } else {
        st
    }
}

/// The state after the first `n` of the lines.
pub open spec fn records_run(lines: Seq<Seq<char>>, n: int) -> RecordsState
    decreases n,
{
    if n <= 0 {
        RecordsState { closed: Seq::empty(), open: None }
    } else {
        records_step(records_run(lines, n - 1), lines[n - 1])
    }
}

/// The records that a text declares: those that are opened and closed in
/// its first span in braces.
pub open spec fn records_in(content: Seq<char>) -> Seq<StateRecord> {
    match bracketed_from(content, '{', '}', 0) {
        None => Seq::empty(),
        Some(body) => records_run(lines(body), lines(body).len() as int).closed,
    }
}

/// The records of the declarations that begin at or after index `from`:
/// those of each `define_state!`, in the order of the text.
pub open spec fn records_from(content: Seq<char>, from: int) -> Seq<StateRecord>
    decreases content.len() + 1 - from,
    via records_from_decreases
{
    if from < 0 {
        Seq::empty()
    } else {
        match find_from(content, "define_state!"@, from) {
            None => Seq::empty(),
            Some(m) => records_in(content.subrange(m, content.len() as int)) + records_from(
                content,
                m + 1,
            ),
        }
    }
}

#[via_fn]
proof fn records_from_decreases(content: Seq<char>, from: int) {
    if from >= 0 {
        lemma_find_from(content, "define_state!"@, from);
    }
}

/// The records that a source file declares.
pub open spec fn records_in_file(content: Seq<char>) -> Seq<StateRecord> {
    records_from(content, 0)
}

/// Reads the name of the record that `line` begins.
pub fn extract_struct_name(line: &[char]) -> (r: Option<String>)
    ensures
        match r {
            Some(name) => struct_name_of(line@) == Some(name@),
            None => struct_name_of(line@) is None,
        },
{
    let parts = split_words(line);
    if parts.len() < 3 {
        return None;
    }
    assert(views(parts@)[0] == parts@[0]@);
    assert(views(parts@)[1] == parts@[1]@);
    assert(views(parts@)[2] == parts@[2]@);
    if same_text(parts[0], chars_of("pub").as_slice()) && same_text(
        parts[1],
        chars_of("struct").as_slice(),
    ) {
        Some(string_of(trim_whitespace(trim_end_of(parts[2], CharClass::Exactly('{')))))
    } else {
        None
    }
}

/// Reads the field that `line` declares.
pub fn parse_state_field_line(line: &[char]) -> (r: Option<StateFieldMeta>)
    ensures
        match r {
            Some(field) => record_field_of_line(line@) == Some(field@),
            None => record_field_of_line(line@) is None,
        },
{
    match char_position(line, ':') {
        None => None,
        Some(i) => {
            let before = trim_whitespace(slice_subrange(line, 0, i));
            let prefix = chars_of("pub ");
            if !has_prefix(before, prefix.as_slice()) {
                return None;
            }
            let name = string_of(trim_whitespace(slice_subrange(before, prefix.len(), before.len())));
            let field_type = string_of(
                trim_end_of(
                    trim_whitespace(slice_subrange(line, i + 1, line.len())),
                    CharClass::Exactly(','),
                ),
            );
            Some(StateFieldMeta { name, field_type })
        },
    }
}

/// Reads the records that `content` declares; `None` where it declares none.
pub fn parse_define_state_macro(content: &[char]) -> (r: Option<Vec<StateMeta>>)
    ensures
        match r {
            Some(records) => records.len() > 0 && records_of(records@) == records_in(content@),
            None => records_in(content@).len() == 0,
        },
{
    let body = match extract_bracketed(content, '{', '}', 0) {
        None => {
            return None;
        },
        Some(body) => body,
    };
    let all = split_lines(body);
    let pub_struct = chars_of("pub struct");
    let pub_space = chars_of("pub ");
    let closing = chars_of("}");
    let mut closed: Vec<StateMeta> = Vec::new();
    let mut open: Option<StateMeta> = None;
    assert(records_of(closed@) =~= Seq::empty());
    let mut i: usize = 0;
    while i < all.len()
        invariant
            i <= all.len(),
            views(all@) == lines(body@),
            pub_struct@ == "pub struct"@,
            pub_space@ == "pub "@,
            closing@ == "}"@,
            records_run(lines(body@), i as int) == (RecordsState {
                closed: records_of(closed@),
                open: match open {
                    Some(record) => Some(record@),
                    None => None,
                },
            }),
        decreases all.len() - i,
    {
        assert(views(all@)[i as int] == all@[i as int]@);
        let line = trim_whitespace(all[i]);
        if has_prefix(line, pub_struct.as_slice()) && has_char(line, '{') {
            match extract_struct_name(line) {
                Some(name) => {
                    let record = StateMeta { name, fields: Vec::new() };
                    assert(record_fields_of(record.fields@) =~= Seq::empty());
                    open = Some(record);
                },
                None => {},
            }
        } else if same_text(line, closing.as_slice()) && open.is_some() {
            let ghost before = records_of(closed@);
            let record = open.unwrap();
            closed.push(record);
            assert(records_of(closed@) =~= before.push(record@));
            open = None;
        } else if open.is_some() && has_prefix(line, pub_space.as_slice()) && has_char(line, ':') {
            match parse_state_field_line(line) {
                Some(field) => {
                    let mut record = open.unwrap();
                    let ghost before = record_fields_of(record.fields@);
                    record.fields.push(field);
                    assert(record_fields_of(record.fields@) =~= before.push(field@));
                    open = Some(record);
                },
                None => {},
            }
        }
        i += 1;
    }
    if closed.len() == 0 {
        None
    } else {
        Some(closed)
    }
}

/// Reads the records that a source file declares; `None` where it declares
/// none.
pub fn parse_state_file(content: &str) -> (r: Option<Vec<StateMeta>>)
    ensures
        match r {
            Some(records) => records.len() > 0 && records_of(records@) == records_in_file(
                content@,
            ),
            None => records_in_file(content@).len() == 0,
        },
{
    let text = chars_of(content);
    let marker = chars_of("define_state!");
    let mut records: Vec<StateMeta> = Vec::new();
    assert(records_of(records@) =~= Seq::empty());
    let mut from: usize = 0;
    loop
        invariant
            text@ == content@,
            marker@ == "define_state!"@,
            from <= text.len(),
            records_in_file(content@) == records_of(records@) + records_from(content@, from as int),
        ensures
            records_in_file(content@) == records_of(records@),
        decreases text.len() - from,
    {
        match position_from(text.as_slice(), marker.as_slice(), from) {
            None => {
                assert(records_of(records@) + Seq::<StateRecord>::empty() =~= records_of(
                    records@,
                ));
                break ;
            },
            Some(m) => {
                proof {
                    reveal_strlit("define_state!");
                }
                match parse_define_state_macro(slice_subrange(text.as_slice(), m, text.len())) {
                    None => {
                        assert(records_in(content@.subrange(m as int, content@.len() as int))
                            =~= Seq::empty());
                    },
                    Some(mut found) => {
                        let ghost before = records_of(records@);
                        let ghost added = records_of(found@);
                        records.append(&mut found);
                        assert(records_of(records@) =~= before + added);
                    },
                }
                from = m + 1;
            },
        }
    }
    if records.len() == 0 {
        None
    } else {
        Some(records)
    }
}

} // verus!
