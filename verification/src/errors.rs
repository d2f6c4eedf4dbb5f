//! Error tables.
//!
//! A program declares its errors as one table: the name of the domain, then
//! one line for each variant with its code.
//!
//! ```text
//! define_errors! {
//!     VaultError,
//!     InvalidDiscriminator = 6001,
//!     Unauthorized = 6002,
//! }
//! ```

use crate::account::ProgramError;
use crate::extract::{bracketed_from, extract_bracketed};
use crate::text::{
    begins_with_char, char_position, chars_of, contains_char, first_is, has_char, index_of, lines,
    parse_number, parse_u32, same_text, split_lines, string_of, trim, trim_end_matches, trim_end_of,
    trim_whitespace, views, CharClass,
};
use vstd::prelude::*;
use vstd::slice::slice_subrange;

verus! {

/// What an [`ErrorVariant`] stands for.
pub struct DomainVariant {
    pub name: Seq<char>,
    pub code: u32,
}

/// What an [`ErrorMeta`] stands for.
pub struct ErrorDomain {
    pub name: Seq<char>,
    pub variants: Seq<DomainVariant>,
}

/// One variant of an error table.
#[derive(Clone, Debug)]
pub struct ErrorVariant {
    /// The variant's name.
    pub name: String,
    /// The code by which the variant is reported.
    pub code: u32,
}

/// One error table.
#[derive(Clone, Debug)]
pub struct ErrorMeta {
    /// The domain's name.
    pub name: String,
    /// The variants, in the declared order.
    pub variants: Vec<ErrorVariant>,
}

impl View for ErrorVariant {
    type V = DomainVariant;

    open spec fn view(&self) -> DomainVariant {
        DomainVariant { name: self.name@, code: self.code }
    }
}

/// What a vector of variants stands for.
pub open spec fn variants_of(variants: Seq<ErrorVariant>) -> Seq<DomainVariant> {
    Seq::new(variants.len(), |i: int| variants[i]@)
}

impl View for ErrorMeta {
    type V = ErrorDomain;

    open spec fn view(&self) -> ErrorDomain {
        ErrorDomain { name: self.name@, variants: variants_of(self.variants@) }
    }
}

/// The code that stands for a tag that no instruction has, where a table
/// does not name one.
pub const INVALID_DISCRIMINATOR: u32 = 6001;

/// The first index at or after `from` of a variant with the name `name`.
pub open spec fn variant_index_from(variants: Seq<DomainVariant>, name: Seq<char>, from: int) -> Option<
    int,
>
    decreases variants.len() - from,
{
    if from < 0 || from >= variants.len() {
        None
    } else if variants[from].name == name {
        Some(from)
    } else {
        variant_index_from(variants, name, from + 1)
    }
}

impl ErrorDomain {
    /// The code that the table reserves for a tag that no instruction has:
    /// that of its first variant named `InvalidDiscriminator`, or 6001 where
    /// it has none.
    pub open spec fn reserved_code(self) -> u32 {
        match variant_index_from(self.variants, "InvalidDiscriminator"@, 0) {
            Some(i) => self.variants[i].code,
            None => INVALID_DISCRIMINATOR,
        }
    }
}

impl DomainVariant {
    /// What the variant says of itself: its name, but for the reserved
    /// variant, which says what it stands for.
    pub open spec fn message(self) -> Seq<char> {
        if self.name == "InvalidDiscriminator"@ {
            "Invalid instruction discriminator"@
        } else {
            self.name
        }
    }
}

impl ErrorVariant {
    /// The variant as an error of the program: its code.
    pub fn to_program_error(&self) -> (e: ProgramError)
        ensures
            e == ProgramError::Custom(self.code),
    {
        ProgramError::Custom(self.code)
    }

    /// What the variant says of itself.
    pub fn message(&self) -> (text: String)
        ensures
            text@ == self@.message(),
    {
        if same_text(
            chars_of(self.name.as_str()).as_slice(),
            chars_of("InvalidDiscriminator").as_slice(),
        ) {
            "Invalid instruction discriminator".to_owned()
        } else {
            self.name.clone()
        }
    }
}

impl ErrorMeta {
    /// The code that the table reserves for a tag that no instruction has.
    pub fn reserved_code(&self) -> (code: u32)
        ensures
            code == self@.reserved_code(),
    {
        let name = chars_of("InvalidDiscriminator");
        let mut i: usize = 0;
        while i < self.variants.len()
            invariant
                i <= self.variants.len(),
                name@ == "InvalidDiscriminator"@,
                variant_index_from(self@.variants, name@, 0) == variant_index_from(
                    self@.variants,
                    name@,
                    i as int,
                ),
            decreases self.variants.len() - i,
        {
            assert(self@.variants[i as int] == self.variants@[i as int]@);
            if same_text(chars_of(self.variants[i].name.as_str()).as_slice(), name.as_slice()) {
                return self.variants[i].code;
            }
            i += 1;
        }
        INVALID_DISCRIMINATOR
    }
}

/// The variant that a line declares: its name stands before the first equals
/// sign, its code after it, without the commas that end the line. A line
/// whose code is not a number of 32 bits declares nothing.
pub open spec fn variant_of_line(line: Seq<char>) -> Option<DomainVariant> {
    match index_of(line, '=') {
        None => None,
        Some(i) => match parse_number(
            trim_end_matches(trim(line.subrange(i + 1, line.len() as int)), CharClass::Exactly(',')),
            0xffff_ffff,
        ) {
            None => None,
            Some(code) => Some(DomainVariant { name: trim(line.subrange(0, i)), code: code as u32 }),
        },
    }
}

/// What one line does to the table read so far.
///
/// The line is trimmed first. While the domain has no name, the first line
/// that is not empty and does not begin with an opening brace names it,
/// without the commas that end it. After that a line that holds an equals
/// sign and does not begin with a brace declares the next variant.
pub open spec fn table_step(table: ErrorDomain, raw: Seq<char>) -> ErrorDomain {
    let line = trim(raw);
    if table.name.len() == 0 && line.len() > 0 && !first_is(line, '{') {
        ErrorDomain { name: trim_end_matches(line, CharClass::Exactly(',')), ..table }
    } else if contains_char(line, '=') && !first_is(line, '{') && !first_is(line, '}') {
        match variant_of_line(line) {
            Some(variant) => ErrorDomain { variants: table.variants.push(variant), ..table },
            None => table,
        }
    } else {
        table
    }
}

/// The table after the first `n` of the lines.
pub open spec fn table_run(lines: Seq<Seq<char>>, n: int) -> ErrorDomain
    decreases n,
{
    if n <= 0 {
        ErrorDomain { name: Seq::empty(), variants: Seq::empty() }
    } else {
        table_step(table_run(lines, n - 1), lines[n - 1])
    }
}

/// The table that the body of a declaration describes: none where it has no
/// name or no variant.
pub open spec fn table_of_body(body: Seq<char>) -> Option<ErrorDomain> {
    let table = table_run(lines(body), lines(body).len() as int);
    if table.name.len() > 0 && table.variants.len() > 0 {
        Some(table)
    } else {
        None
    }
}

/// The table that a text declares: the one whose body is the first span in
/// braces.
pub open spec fn table_of(content: Seq<char>) -> Option<ErrorDomain> {
    match bracketed_from(content, '{', '}', 0) {
        None => None,
        Some(body) => table_of_body(body),
    }
}

/// What a vector of tables stands for.
pub open spec fn domains_of(tables: Seq<ErrorMeta>) -> Seq<ErrorDomain> {
    Seq::new(tables.len(), |i: int| tables[i]@)
}

fn parse_variant_line(line: &[char]) -> (r: Option<ErrorVariant>)
    ensures
        match r {
            Some(variant) => variant_of_line(line@) == Some(variant@),
            None => variant_of_line(line@) is None,
        },
{
    match char_position(line, '=') {
        None => None,
        Some(i) => {
            let code = parse_u32(
                trim_end_of(
                    trim_whitespace(slice_subrange(line, i + 1, line.len())),
                    CharClass::Exactly(','),
                ),
            );
            match code {
                None => None,
                Some(code) => Some(
                    ErrorVariant { name: string_of(trim_whitespace(slice_subrange(line, 0, i))), code },
                ),
            }
        },
    }
}

/// Reads the error table that `content` declares.
pub fn parse_error_macro(content: &[char]) -> (r: Option<ErrorMeta>)
    ensures
        match r {
            Some(meta) => table_of(content@) == Some(meta@),
            None => table_of(content@) is None,
        },
{
    let body = match extract_bracketed(content, '{', '}', 0) {
        None => {
            return None;
        },
        Some(body) => body,
    };
    let all = split_lines(body);
    let mut name: &[char] = slice_subrange(body, 0, 0);
    let mut variants: Vec<ErrorVariant> = Vec::new();
    assert(variants_of(variants@) =~= Seq::empty());
    assert(name@ =~= Seq::empty());
    let mut i: usize = 0;
    while i < all.len()
        invariant
            i <= all.len(),
            views(all@) == lines(body@),
            table_run(lines(body@), i as int) == (ErrorDomain {
                name: name@,
                variants: variants_of(variants@),
            }),
        decreases all.len() - i,
    {
        assert(views(all@)[i as int] == all@[i as int]@);
        let line = trim_whitespace(all[i]);
        if name.len() == 0 && line.len() > 0 && !begins_with_char(line, '{') {
            name = trim_end_of(line, CharClass::Exactly(','));
        } else if has_char(line, '=') && !begins_with_char(line, '{') && !begins_with_char(
            line,
            '}',
        ) {
            match parse_variant_line(line) {
                Some(variant) => {
                    let ghost before = variants_of(variants@);
                    variants.push(variant);
                    assert(variants_of(variants@) =~= before.push(variant@));
                },
                None => {},
            }
        }
        i += 1;
    }
    if name.len() > 0 && variants.len() > 0 {
        Some(ErrorMeta { name: string_of(name), variants })
    } else {
        None
    }
}

} // verus!
