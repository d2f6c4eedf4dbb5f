//! Instruction declarations.
//!
//! An instruction is declared by its tag, its name, its account slots and
//! the fields of its payload, followed by the handler's body:
//!
//! ```text
//! define_instruction_with_metadata!(
//!     discriminant: 0,
//!     Create,
//!     accounts: {
//!         owner: signer => writable, desc: "Who pays",
//!         target: uninitialized, desc: "What is created",
//!     },
//!     data: {
//!         amount: [u8; 8],
//!     },
//!     process: { .. }
//! );
//! ```
//!
//! The declaration is read line by line. [`step`] says what one line does to
//! what has been read so far, [`run`] folds it over the lines, and
//! [`parse_macro_content`] computes exactly that.

use crate::capability::{capability_of, parse_capability, Capability};
use crate::extract::{bracketed_from, extract_bracketed};
use crate::text::{
    char_position, chars_of, contains, contains_char, find, first_is, has_char, has_infix,
    has_prefix, index_of, last_is, lines, parse_number, parse_u8, position, split, split_lines,
    split_on, starts_with, string_of, trim, trim_end_matches, trim_end_of, trim_matches, trim_of,
    trim_whitespace, views, CharClass,
};
use vstd::prelude::*;
use vstd::slice::slice_subrange;

verus! {

/// What an [`AccountMeta`] stands for.
pub struct AccountSlot {
    pub name: Seq<char>,
    pub index: nat,
    pub desc: Seq<char>,
    pub capability: Capability,
}

/// What a [`FieldMeta`] stands for.
pub struct DataField {
    pub name: Seq<char>,
    pub field_type: Seq<char>,
}

/// What an [`InstructionMeta`] stands for.
pub struct InstructionDescriptor {
    pub name: Seq<char>,
    pub discriminator: u8,
    pub accounts: Seq<AccountSlot>,
    pub fields: Seq<DataField>,
}

/// One account slot of an instruction.
#[derive(Clone, Debug)]
pub struct AccountMeta {
    /// The slot's name.
    pub name: String,
    /// The slot's position among the instruction's accounts, from 0.
    pub index: usize,
    /// What the slot is for, in words.
    pub desc: String,
    /// What the slot asks of its account.
    pub capability: Capability,
}

/// One field of an instruction's payload.
#[derive(Clone, Debug)]
pub struct FieldMeta {
    /// The field's name.
    pub name: String,
    /// The field's type, as it is written in the declaration.
    pub field_type: String,
}

/// One declared instruction.
#[derive(Clone, Debug)]
pub struct InstructionMeta {
    /// The instruction's name.
    pub name: String,
    /// The tag by which the instruction is selected.
    pub discriminator: u8,
    /// The account slots, in the declared order.
    pub accounts: Vec<AccountMeta>,
    /// The payload's fields, in the declared order.
    pub fields: Vec<FieldMeta>,
}

impl View for AccountMeta {
    type V = AccountSlot;

    open spec fn view(&self) -> AccountSlot {
        AccountSlot {
            name: self.name@,
            index: self.index as nat,
            desc: self.desc@,
            capability: self.capability,
        }
    }
}

impl View for FieldMeta {
    type V = DataField;

    open spec fn view(&self) -> DataField {
        DataField { name: self.name@, field_type: self.field_type@ }
    }
}

/// What a vector of account slots stands for.
pub open spec fn slots_of(accounts: Seq<AccountMeta>) -> Seq<AccountSlot> {
    Seq::new(accounts.len(), |i: int| accounts[i]@)
}

/// What a vector of payload fields stands for.
pub open spec fn fields_of(fields: Seq<FieldMeta>) -> Seq<DataField> {
    Seq::new(fields.len(), |i: int| fields[i]@)
}

impl View for InstructionMeta {
    type V = InstructionDescriptor;

    open spec fn view(&self) -> InstructionDescriptor {
        InstructionDescriptor {
            name: self.name@,
            discriminator: self.discriminator,
            accounts: slots_of(self.accounts@),
            fields: fields_of(self.fields@),
        }
    }
}

/// What a slice of instructions stands for.
pub open spec fn descriptors_of(instructions: Seq<InstructionMeta>) -> Seq<InstructionDescriptor> {
    Seq::new(instructions.len(), |i: int| instructions[i]@)
}

/// Whether the slots are numbered from 0 in their order.
pub open spec fn is_numbered(slots: Seq<AccountSlot>) -> bool {
    forall|k: int| 0 <= k < slots.len() ==> (#[trigger] slots[k]).index == k
}

/// The account slot that a line declares, as the slot at position `index`.
/// The line is cut at its colons: the slot's name stands before the first,
/// the capability between the first and the second, and the description
/// between the second and the third, or the end of the line, without the
/// comma that ends the line and without the quotes around it. A line with
/// fewer than two colons declares nothing.
pub open spec fn account_of_line(line: Seq<char>, index: nat) -> Option<AccountSlot> {
    let parts = split(line, ':');
    if parts.len() < 3 {
        None
    } else {
        Some(
            AccountSlot {
                name: trim(parts[0]),
                index,
                desc: trim_matches(
                    trim_end_matches(trim(parts[2]), CharClass::Exactly(',')),
                    CharClass::Exactly('"'),
                ),
                capability: capability_of(trim(parts[1])),
            },
        )
    }
}

/// The payload field that a line declares: its name stands before the first
/// colon, its type after it, without the commas that end the line. A line
/// without a colon declares nothing.
pub open spec fn field_of_line(line: Seq<char>) -> Option<DataField> {
    match index_of(line, ':') {
        None => None,
        Some(i) => Some(
            DataField {
                name: trim(line.subrange(0, i)),
                field_type: trim_end_matches(
                    trim(line.subrange(i + 1, line.len() as int)),
                    CharClass::Exactly(','),
                ),
            },
        ),
    }
}

/// Reads the account slot that `line` declares.
pub fn parse_new_account_line(line: &[char], index: usize) -> (r: Option<AccountMeta>)
    ensures
        match r {
            Some(account) => account_of_line(line@, index as nat) == Some(account@),
            None => account_of_line(line@, index as nat) is None,
        },
{
    let parts = split_on(line, ':');
    if parts.len() < 3 {
        return None;
    }
    assert(views(parts@)[0] == parts@[0]@);
    assert(views(parts@)[1] == parts@[1]@);
    assert(views(parts@)[2] == parts@[2]@);
    let name = string_of(trim_whitespace(parts[0]));
    let capability = parse_capability(trim_whitespace(parts[1]));
    let desc = string_of(
        trim_of(
            trim_end_of(trim_whitespace(parts[2]), CharClass::Exactly(',')),
            CharClass::Exactly('"'),
        ),
    );
    Some(AccountMeta { name, index, desc, capability })
}

/// Reads the payload field that `line` declares.
pub fn parse_field_line(line: &[char]) -> (r: Option<FieldMeta>)
    ensures
        match r {
            Some(field) => field_of_line(line@) == Some(field@),
            None => field_of_line(line@) is None,
        },
{
    match char_position(line, ':') {
        None => None,
        Some(i) => {
            let name = string_of(trim_whitespace(slice_subrange(line, 0, i)));
            let field_type = string_of(
                trim_end_of(
                    trim_whitespace(slice_subrange(line, i + 1, line.len())),
                    CharClass::Exactly(','),
                ),
            );
            Some(FieldMeta { name, field_type })
        },
    }
}

/// The part of a declaration that the reader is in.
#[derive(Clone, Copy, Debug, PartialEq, Eq, Structural)]
pub enum Mode {
    /// Before the first section: the tag and the name are expected.
    Preamble,
    /// In the section of the account slots.
    Accounts,
    /// In the section of the payload's fields.
    Data,
    /// At the handler's body, which is not read.
    Done,
}

/// What has been read of a declaration.
pub struct ParseState {
    pub name: Seq<char>,
    pub discriminator: u8,
    pub accounts: Seq<AccountSlot>,
    pub fields: Seq<DataField>,
    pub mode: Mode,
}

/// The state before the first line: no name, tag 0, nothing declared.
pub open spec fn initial_state() -> ParseState {
    ParseState {
        name: Seq::empty(),
        discriminator: 0,
        accounts: Seq::empty(),
        fields: Seq::empty(),
        mode: Mode::Preamble,
    }
}

/// The tag that a `discriminant:` line sets: the number between the first
/// colon and the second, or the end of the line, without the commas that end
/// it; 0 where that is not a number of one byte.
pub open spec fn tag_of_line(line: Seq<char>) -> Option<u8> {
    let parts = split(line, ':');
    if parts.len() < 2 {
        None
    } else {
        match parse_number(trim_end_matches(trim(parts[1]), CharClass::Exactly(',')), 255) {
            Some(n) => Some(n as u8),
            None => Some(0u8),
        }
    }
}

/// Whether a trimmed line can name the instruction: it is not empty, ends
/// with a comma and does not begin with the declaration's own keyword.
pub open spec fn is_name_line(line: Seq<char>) -> bool {
    line.len() > 0 && !starts_with(line, "define_instruction"@) && last_is(line, ',')
}

/// What one line does to the state.
///
/// The line is trimmed first. A `discriminant:` line sets the tag. While the
/// instruction has no name, the first line that can name it does so. The
/// lines `accounts:`, `data:` and `process:` change the section, and after
/// `process:` nothing is read any more. In the section of the accounts a
/// line that holds `desc:` declares the next slot; in the section of the
/// data a line that holds a colon and does not begin with a closing brace
/// declares the next field.
pub open spec fn step(st: ParseState, raw: Seq<char>) -> ParseState {
    let line = trim(raw);
    if st.mode == Mode::Done {
        st
    } else if starts_with(line, "discriminant:"@) {
        match tag_of_line(line) {
            Some(tag) => ParseState { discriminator: tag, ..st },
            None => st,
        }
    } else if st.name.len() == 0 && is_name_line(line) {
        ParseState { name: trim_end_matches(line, CharClass::Exactly(',')), ..st }
    } else if starts_with(line, "accounts:"@) {
        ParseState { mode: Mode::Accounts, ..st }
    } else if starts_with(line, "data:"@) {
        ParseState { mode: Mode::Data, ..st }
    } else if starts_with(line, "process:"@) {
        ParseState { mode: Mode::Done, ..st }
    } else if st.mode == Mode::Accounts && contains(line, "desc:"@) {
        match account_of_line(line, st.accounts.len()) {
            Some(account) => ParseState { accounts: st.accounts.push(account), ..st },
            None => st,
        }
    } else if st.mode == Mode::Data && contains_char(line, ':') && !first_is(line, '}') {
        match field_of_line(line) {
            Some(field) => ParseState { fields: st.fields.push(field), ..st },
            None => st,
        }
    } else {
        st
    }
}

/// The state after the first `n` of the lines.
pub open spec fn run(lines: Seq<Seq<char>>, n: int) -> ParseState
    decreases n,
{
    if n <= 0 {
        initial_state()
    } else {
        step(run(lines, n - 1), lines[n - 1])
    }
}

/// The instruction that a state describes: none while it has no name.
pub open spec fn descriptor_of(st: ParseState) -> Option<InstructionDescriptor> {
    if st.name.len() == 0 {
        None
    } else {
        Some(
            InstructionDescriptor {
                name: st.name,
                discriminator: st.discriminator,
                accounts: st.accounts,
                fields: st.fields,
            },
        )
    }
}

/// The instruction that the text of a declaration describes.
pub open spec fn instruction_of(content: Seq<char>) -> Option<InstructionDescriptor> {
    descriptor_of(run(lines(content), lines(content).len() as int))
}

/// After `process:` no line changes the state.
pub proof fn lemma_done_is_final(lines: Seq<Seq<char>>, i: int, n: int)
    requires
        0 <= i <= n,
        run(lines, i).mode == Mode::Done,
    ensures
        run(lines, n) == run(lines, i),
    decreases n - i,
{
    if i < n {
        lemma_done_is_final(lines, i, n - 1);
    }
}

/// The slots that have been read are numbered from 0, in the order in which
/// they were read.
pub proof fn lemma_slots_are_numbered(lines: Seq<Seq<char>>, n: int)
    ensures
        is_numbered(run(lines, n).accounts),
    decreases n,
{
    if n > 0 {
        lemma_slots_are_numbered(lines, n - 1);
    }
}

/// Whether a trimmed line is one that the reader handles by its first word:
/// the line of the tag, or one that begins a section.
pub open spec fn is_keyword_line(line: Seq<char>) -> bool {
    ||| starts_with(line, "discriminant:"@)
    ||| starts_with(line, "accounts:"@)
    ||| starts_with(line, "data:"@)
    ||| starts_with(line, "process:"@)
}

/// Whether a line carries the marker of a description.
pub open spec fn is_marked(raw: Seq<char>) -> bool {
    contains(trim(raw), "desc:"@)
}

/// How many of the lines from index `a` up to `b` carry the marker of a
/// description.
pub open spec fn count_marked(lines: Seq<Seq<char>>, a: int, b: int) -> nat
    decreases b - a,
{
    if b <= a {
        0
    } else if is_marked(lines[b - 1]) {
        count_marked(lines, a, b - 1) + 1
    } else {
        count_marked(lines, a, b - 1)
    }
}

/// The slots that the marked lines from index `a` up to `b` declare, in the
/// order of the lines, the first of them at position `base`.
pub open spec fn slots_of_lines(lines: Seq<Seq<char>>, a: int, b: int, base: nat) -> Seq<
    AccountSlot,
>
    decreases b - a,
{
    if b <= a {
        Seq::empty()
    } else {
        let before = slots_of_lines(lines, a, b - 1, base);
        if is_marked(lines[b - 1]) {
            before.push(account_of_line(trim(lines[b - 1]), base + before.len())->Some_0)
        } else {
            before
        }
    }
}

/// In the section of the accounts every marked line declares one slot, and
/// no other line declares any: after the lines from `a` up to `b` the state
/// holds, behind the slots it held before, the slots of the marked lines in
/// the order of the lines, as many as there are marked lines, and all slots
/// are numbered from 0.
///
/// This is stated for a section that is read as one: the instruction has its
/// name before the section begins, no line of the section is a keyword line,
/// and every marked line has the two colons that part name, capability and
/// description.
pub proof fn lemma_one_slot_per_marked_line(lines: Seq<Seq<char>>, a: int, b: int)
    requires
        0 <= a <= b <= lines.len(),
        run(lines, a).mode == Mode::Accounts,
        run(lines, a).name.len() > 0,
        forall|k: int|
            a <= k < b ==> !is_keyword_line(trim(#[trigger] lines[k])) && (is_marked(lines[k])
                ==> split(trim(lines[k]), ':').len() >= 3),
    ensures
        run(lines, b).mode == Mode::Accounts,
        run(lines, b).name == run(lines, a).name,
        run(lines, b).accounts == run(lines, a).accounts + slots_of_lines(
            lines,
            a,
            b,
            run(lines, a).accounts.len(),
        ),
        slots_of_lines(lines, a, b, run(lines, a).accounts.len()).len() == count_marked(
            lines,
            a,
            b,
        ),
        is_numbered(run(lines, b).accounts),
    decreases b - a,
{
    let base = run(lines, a).accounts.len();
    lemma_slots_are_numbered(lines, b);
    if a < b {
        lemma_one_slot_per_marked_line(lines, a, b - 1);
        let st = run(lines, b - 1);
        let before = slots_of_lines(lines, a, b - 1, base);
        let line = trim(lines[b - 1]);
        assert(!is_keyword_line(line));
        if is_marked(lines[b - 1]) {
            let slot = account_of_line(line, st.accounts.len())->Some_0;
            assert(run(lines, b).accounts == st.accounts.push(slot));
            assert(st.accounts.push(slot) =~= run(lines, a).accounts + before.push(slot));
        } else {
            assert(run(lines, b).accounts == st.accounts);
        }
    } else {
        assert(run(lines, a).accounts + Seq::<AccountSlot>::empty() =~= run(lines, a).accounts);
    }
}

/// Outside the section of the accounts no line declares a slot.
pub proof fn lemma_slots_only_in_accounts(lines: Seq<Seq<char>>, n: int)
    requires
        0 <= n,
        run(lines, n).mode != Mode::Accounts,
    ensures
        run(lines, n + 1).accounts == run(lines, n).accounts,
{
}

/// Once the instruction has its name, no line changes it.
pub proof fn lemma_name_is_kept(lines: Seq<Seq<char>>, i: int, n: int)
    requires
        0 <= i <= n,
        run(lines, i).name.len() > 0,
    ensures
        run(lines, n).name == run(lines, i).name,
    decreases n - i,
{
    if i < n {
        lemma_name_is_kept(lines, i, n - 1);
    }
}

/// After the section of the accounts has been left for good, the slots
/// stay as they are.
pub proof fn lemma_slots_after_the_section(lines: Seq<Seq<char>>, b: int, n: int)
    requires
        0 <= b <= n <= lines.len(),
        forall|k: int| b <= k < lines.len() ==> (#[trigger] run(lines, k + 1)).mode != Mode::Accounts,
    ensures
        run(lines, n).accounts == run(lines, b).accounts,
    decreases n - b,
{
    if b < n {
        lemma_slots_after_the_section(lines, b, n - 1);
        if n - 1 > b {
            assert(run(lines, (n - 2) + 1).mode != Mode::Accounts);
            lemma_slots_only_in_accounts(lines, n - 1);
        } else {
            assert(run(lines, b + 1).mode != Mode::Accounts);
        }
    }
}

/// A declaration with one section of accounts has one slot for each marked
/// line of that section, in the order of the lines and numbered from 0.
///
/// The section is the lines from `a` up to `b`: before it the instruction
/// has its name and no slot, no line of it is a keyword line, every marked
/// line of it has the two colons that part name, capability and
/// description, and after it the section of the accounts is not entered
/// again.
pub proof fn lemma_slots_of_a_declaration(lines: Seq<Seq<char>>, a: int, b: int)
    requires
        0 <= a <= b <= lines.len(),
        run(lines, a).mode == Mode::Accounts,
        run(lines, a).name.len() > 0,
        run(lines, a).accounts.len() == 0,
        forall|k: int|
            a <= k < b ==> !is_keyword_line(trim(#[trigger] lines[k])) && (is_marked(lines[k])
                ==> split(trim(lines[k]), ':').len() >= 3),
        forall|k: int| b <= k < lines.len() ==> (#[trigger] run(lines, k + 1)).mode != Mode::Accounts,
    ensures
        descriptor_of(run(lines, lines.len() as int)) matches Some(instruction) && {
            &&& instruction.accounts == slots_of_lines(lines, a, b, 0)
            &&& instruction.accounts.len() == count_marked(lines, a, b)
            &&& is_numbered(instruction.accounts)
        },
{
    lemma_one_slot_per_marked_line(lines, a, b);
    lemma_slots_after_the_section(lines, b, lines.len() as int);
    lemma_name_is_kept(lines, a, lines.len() as int);
    assert(run(lines, a).accounts + slots_of_lines(lines, a, b, 0) =~= slots_of_lines(
        lines,
        a,
        b,
        0,
    ));
}

/// The words that the reader looks for, as characters.
struct Keywords {
    discriminant: Vec<char>,
    define_instruction: Vec<char>,
    accounts: Vec<char>,
    data: Vec<char>,
    process: Vec<char>,
    desc: Vec<char>,
}

impl Keywords {
    spec fn wf(&self) -> bool {
        &&& self.discriminant@ == "discriminant:"@
        &&& self.define_instruction@ == "define_instruction"@
        &&& self.accounts@ == "accounts:"@
        &&& self.data@ == "data:"@
        &&& self.process@ == "process:"@
        &&& self.desc@ == "desc:"@
    }

    fn new() -> (kw: Keywords)
        ensures
            kw.wf(),
    {
        Keywords {
            discriminant: chars_of("discriminant:"),
            define_instruction: chars_of("define_instruction"),
            accounts: chars_of("accounts:"),
            data: chars_of("data:"),
            process: chars_of("process:"),
            desc: chars_of("desc:"),
        }
    }
}

/// The reader's state while it goes through a declaration.
struct Reader<'a> {
    name: &'a [char],
    discriminator: u8,
    accounts: Vec<AccountMeta>,
    fields: Vec<FieldMeta>,
    mode: Mode,
}

impl<'a> Reader<'a> {
    spec fn state(&self) -> ParseState {
        ParseState {
            name: self.name@,
            discriminator: self.discriminator,
            accounts: slots_of(self.accounts@),
            fields: fields_of(self.fields@),
            mode: self.mode,
        }
    }

    fn read_tag(line: &[char]) -> (r: Option<u8>)
        ensures
            r == tag_of_line(line@),
    {
        let parts = split_on(line, ':');
        if parts.len() < 2 {
            return None;
        }
        assert(views(parts@)[1] == parts@[1]@);
        match parse_u8(trim_end_of(trim_whitespace(parts[1]), CharClass::Exactly(','))) {
            Some(n) => Some(n),
            None => Some(0),
        }
    }

    fn feed(&mut self, kw: &Keywords, raw: &'a [char])
        requires
            kw.wf(),
        ensures
            final(self).state() == step(old(self).state(), raw@),
    {
        let line = trim_whitespace(raw);
        if self.mode == Mode::Done {
            return ;
        }
        if has_prefix(line, kw.discriminant.as_slice()) {
            match Self::read_tag(line) {
                Some(tag) => {
                    self.discriminator = tag;
                },
                None => {},
            }
        } else if self.name.len() == 0 && line.len() > 0 && !has_prefix(
            line,
            kw.define_instruction.as_slice(),
        ) && line[line.len() - 1] == ',' {
            self.name = trim_end_of(line, CharClass::Exactly(','));
        } else if has_prefix(line, kw.accounts.as_slice()) {
            self.mode = Mode::Accounts;
        } else if has_prefix(line, kw.data.as_slice()) {
            self.mode = Mode::Data;
        } else if has_prefix(line, kw.process.as_slice()) {
            self.mode = Mode::Done;
        } else if self.mode == Mode::Accounts && has_infix(line, kw.desc.as_slice()) {
            match parse_new_account_line(line, self.accounts.len()) {
                Some(account) => {
                    self.accounts.push(account);
                    assert(slots_of(self.accounts@) =~= slots_of(old(self).accounts@).push(
                        account@,
                    ));
                },
                None => {},
            }
        } else if self.mode == Mode::Data && has_char(line, ':') && !(line.len() > 0 && line[0]
            == '}') {
            match parse_field_line(line) {
                Some(field) => {
                    self.fields.push(field);
                    assert(fields_of(self.fields@) =~= fields_of(old(self).fields@).push(field@));
                },
                None => {},
            }
        }
    }
}

/// Reads the text of an instruction's declaration. The result is `None`
/// exactly when no line names the instruction.
pub fn parse_macro_content(content: &[char]) -> (r: Option<InstructionMeta>)
    ensures
        match r {
            Some(meta) => instruction_of(content@) == Some(meta@),
            None => instruction_of(content@) is None,
        },
        r matches Some(meta) ==> is_numbered(meta@.accounts),
{
    let kw = Keywords::new();
    let all = split_lines(content);
    let mut reader = Reader {
        name: slice_subrange(content, 0, 0),
        discriminator: 0,
        accounts: Vec::new(),
        fields: Vec::new(),
        mode: Mode::Preamble,
    };
    assert(reader.state().accounts =~= Seq::empty());
    assert(reader.state().fields =~= Seq::empty());
    assert(reader.state().name =~= Seq::empty());
    let mut i: usize = 0;
    while i < all.len() && reader.mode != Mode::Done
        invariant
            kw.wf(),
            i <= all.len(),
            views(all@) == lines(content@),
            reader.state() == run(lines(content@), i as int),
        decreases all.len() - i,
    {
        assert(views(all@)[i as int] == all@[i as int]@);
        reader.feed(&kw, all[i]);
        i += 1;
    }
    proof {
        if i < all.len() {
            lemma_done_is_final(lines(content@), i as int, all.len() as int);
        }
        lemma_slots_are_numbered(lines(content@), all.len() as int);
    }
    if reader.name.len() == 0 {
        None
    } else {
        Some(
            InstructionMeta {
                name: string_of(reader.name),
                discriminator: reader.discriminator,
                accounts: reader.accounts,
                fields: reader.fields,
            },
        )
    }
}

/// The instruction that a source file declares: the one whose declaration
/// follows the first `define_instruction_with_metadata!(` or, where the file
/// holds none, the first `define_instruction!(`. The declaration reaches
/// from that opening bracket to the bracket that closes it; a file in which
/// it is never closed declares nothing.
pub open spec fn instruction_in_file(content: Seq<char>) -> Option<InstructionDescriptor> {
    let start = match find(content, "define_instruction_with_metadata!("@) {
        Some(m) => Some(m),
        None => find(content, "define_instruction!("@),
    };
    match start {
        None => None,
        Some(m) => match bracketed_from(content, '(', ')', m) {
            None => None,
            Some(span) => instruction_of(span),
        },
    }
}

/// Reads the instruction that a source file declares.
pub fn parse_instruction_file(content: &str) -> (r: Option<InstructionMeta>)
    ensures
        match r {
            Some(meta) => instruction_in_file(content@) == Some(meta@),
            None => instruction_in_file(content@) is None,
        },
        r matches Some(meta) ==> is_numbered(meta@.accounts),
{
    let text = chars_of(content);
    let start = match position(text.as_slice(), chars_of("define_instruction_with_metadata!(").as_slice()) {
        Some(m) => Some(m),
        None => position(text.as_slice(), chars_of("define_instruction!(").as_slice()),
    };
    match start {
        None => None,
        Some(m) => match extract_bracketed(text.as_slice(), '(', ')', m) {
            None => None,
            Some(span) => parse_macro_content(span),
        },
    }
}

} // verus!
