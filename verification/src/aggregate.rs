//! Collecting the declarations of a program.
//!
//! The instructions of a program are declared one to a source file. They are
//! handed on by ascending tag, and where two claim the same tag the one that
//! was read first stands for it. The variants of an error table are handed
//! on in the declared order, and where two claim the same code the one that
//! was declared first stands for it.

use crate::errors::{domains_of, variants_of, DomainVariant, ErrorDomain, ErrorMeta, ErrorVariant};
use crate::instruction::{
    descriptors_of, fields_of, instruction_in_file, parse_instruction_file, slots_of, AccountMeta,
    FieldMeta, InstructionDescriptor, InstructionMeta,
};
use crate::errors::{parse_error_macro, table_of};
use crate::state::{parse_state_file, records_in_file, records_of, StateMeta, StateRecord};
use crate::text::{chars_of, ends_with, find, has_suffix, position, same_text};
use vstd::prelude::*;
use vstd::slice::slice_subrange;

verus! {

/// The first index at or after `from` of an instruction with the tag `tag`.
pub open spec fn tag_index_from(items: Seq<InstructionDescriptor>, tag: u8, from: int) -> Option<
    int,
>
    decreases items.len() - from,
{
    if from < 0 || from >= items.len() {
        None
    } else if items[from].discriminator == tag {
        Some(from)
    } else {
        tag_index_from(items, tag, from + 1)
    }
}

/// For each tag below `bound` in turn that an instruction claims, the first
/// instruction that claims it.
pub open spec fn by_tag_below(items: Seq<InstructionDescriptor>, bound: int) -> Seq<
    InstructionDescriptor,
>
    decreases bound,
{
    if bound <= 0 {
        Seq::empty()
    } else {
        match tag_index_from(items, (bound - 1) as u8, 0) {
            Some(i) => by_tag_below(items, bound - 1).push(items[i]),
            None => by_tag_below(items, bound - 1),
        }
    }
}

/// The instructions by ascending tag, one for each tag that is claimed: the
/// first that claims it.
pub open spec fn instructions_by_tag(items: Seq<InstructionDescriptor>) -> Seq<
    InstructionDescriptor,
> {
    by_tag_below(items, 256)
}

/// Whether the tags of the instructions ascend strictly, so that no two
/// instructions have the same tag.
pub open spec fn tags_ascend(items: Seq<InstructionDescriptor>) -> bool {
    forall|a: int, b: int|
        0 <= a < b < items.len() ==> (#[trigger] items[a]).discriminator
            < (#[trigger] items[b]).discriminator
}

/// What `tag_index_from` returns is the first index at or after `from` whose
/// instruction has the tag.
pub proof fn lemma_tag_index_from(items: Seq<InstructionDescriptor>, tag: u8, from: int)
    requires
        0 <= from,
    ensures
        match tag_index_from(items, tag, from) {
            Some(i) => from <= i < items.len() && items[i].discriminator == tag && forall|j: int|
                from <= j < i ==> items[j].discriminator != tag,
            None => forall|j: int| from <= j < items.len() ==> items[j].discriminator != tag,
        },
    decreases items.len() - from,
{
    if from < items.len() && items[from].discriminator != tag {
        lemma_tag_index_from(items, tag, from + 1);
    }
}

/// What is handed on is in strictly ascending order of the tags, every
/// instruction handed on is the first that claims its tag, and every tag
/// that is claimed is handed on.
pub proof fn lemma_by_tag(items: Seq<InstructionDescriptor>, bound: int)
    requires
        0 <= bound <= 256,
    ensures
        forall|k: int|
            0 <= k < by_tag_below(items, bound).len() ==> {
                let d = (#[trigger] by_tag_below(items, bound)[k]).discriminator;
                &&& d < bound
                &&& tag_index_from(items, d, 0) is Some
                &&& by_tag_below(items, bound)[k] == items[tag_index_from(items, d, 0)->Some_0]
            },
        forall|a: int, b: int|
            0 <= a < b < by_tag_below(items, bound).len() ==> (#[trigger] by_tag_below(
                items,
                bound,
            )[a]).discriminator < (#[trigger] by_tag_below(items, bound)[b]).discriminator,
        forall|i: int|
            0 <= i < items.len() && (#[trigger] items[i]).discriminator < bound ==> exists|k: int|
                0 <= k < by_tag_below(items, bound).len() && (#[trigger] by_tag_below(
                    items,
                    bound,
                )[k]).discriminator == items[i].discriminator,
    decreases bound,
{
    if bound > 0 {
        lemma_by_tag(items, bound - 1);
        lemma_tag_index_from(items, (bound - 1) as u8, 0);
        let rest = by_tag_below(items, bound - 1);
        let all = by_tag_below(items, bound);
        match tag_index_from(items, (bound - 1) as u8, 0) {
            Some(first) => {
                assert(all == rest.push(items[first]));
                assert forall|k: int| 0 <= k < all.len() implies {
                    let d = (#[trigger] all[k]).discriminator;
                    &&& d < bound
                    &&& tag_index_from(items, d, 0) is Some
                    &&& all[k] == items[tag_index_from(items, d, 0)->Some_0]
                } by {
                    if k < rest.len() {
                        assert(all[k] == rest[k]);
                    }
                }
                assert forall|a: int, b: int| 0 <= a < b < all.len() implies (#[trigger] all[a]).discriminator
                    < (#[trigger] all[b]).discriminator by {
                    assert(all[a] == rest[a]);
                    if b < rest.len() {
                        assert(all[b] == rest[b]);
                    }
                }
                assert forall|i: int|
                    0 <= i < items.len() && (#[trigger] items[i]).discriminator < bound implies exists|
                    k: int,
                |
                    0 <= k < all.len() && (#[trigger] all[k]).discriminator
                        == items[i].discriminator by {
                    if items[i].discriminator == bound - 1 {
                        assert(all[rest.len() as int].discriminator == items[i].discriminator);
                    } else {
                        let k = choose|k: int|
                            0 <= k < rest.len() && (#[trigger] rest[k]).discriminator
                                == items[i].discriminator;
                        assert(all[k] == rest[k]);
                    }
                }
            },
            None => {
                assert(all == rest);
            },
        }
    }
}

fn copy_account(account: &AccountMeta) -> (copy: AccountMeta)
    ensures
        copy@ == account@,
{
    AccountMeta {
        name: account.name.clone(),
        index: account.index,
        desc: account.desc.clone(),
        capability: account.capability,
    }
}

fn copy_instruction(instruction: &InstructionMeta) -> (copy: InstructionMeta)
    ensures
        copy@ == instruction@,
{
    let mut accounts: Vec<AccountMeta> = Vec::new();
    let mut i: usize = 0;
    while i < instruction.accounts.len()
        invariant
            i <= instruction.accounts.len(),
            accounts.len() == i,
            forall|k: int| 0 <= k < i ==> (#[trigger] accounts[k])@ == instruction.accounts[k]@,
        decreases instruction.accounts.len() - i,
    {
        accounts.push(copy_account(&instruction.accounts[i]));
        i += 1;
    }
    let mut fields: Vec<FieldMeta> = Vec::new();
    let mut k: usize = 0;
    while k < instruction.fields.len()
        invariant
            k <= instruction.fields.len(),
            fields.len() == k,
            forall|j: int| 0 <= j < k ==> (#[trigger] fields[j])@ == instruction.fields[j]@,
        decreases instruction.fields.len() - k,
    {
        let field = &instruction.fields[k];
        fields.push(FieldMeta { name: field.name.clone(), field_type: field.field_type.clone() });
        k += 1;
    }
    assert(slots_of(accounts@) =~= slots_of(instruction.accounts@));
    assert(fields_of(fields@) =~= fields_of(instruction.fields@));
    InstructionMeta {
        name: instruction.name.clone(),
        discriminator: instruction.discriminator,
        accounts,
        fields,
    }
}

/// Orders instructions by their tags, keeping for each tag the first
/// instruction that claims it.
pub fn order_by_tag(items: &[InstructionMeta]) -> (ordered: Vec<InstructionMeta>)
    ensures
        descriptors_of(ordered@) == instructions_by_tag(descriptors_of(items@)),
        tags_ascend(descriptors_of(ordered@)),
{
    let ghost all = descriptors_of(items@);
    let mut ordered: Vec<InstructionMeta> = Vec::new();
    assert(descriptors_of(ordered@) =~= Seq::empty());
    let mut bound: u16 = 0;
    while bound < 256
        invariant
            bound <= 256,
            all == descriptors_of(items@),
            descriptors_of(ordered@) == by_tag_below(all, bound as int),
        decreases 256 - bound,
    {
        let tag: u8 = bound as u8;
        let mut i: usize = 0;
        while i < items.len()
            invariant_except_break
                descriptors_of(ordered@) == by_tag_below(all, bound as int),
                tag_index_from(all, tag, 0) == tag_index_from(all, tag, i as int),
            invariant
                i <= items.len(),
                all == descriptors_of(items@),
                tag == bound,
            ensures
                descriptors_of(ordered@) == by_tag_below(all, bound + 1),
            decreases items.len() - i,
        {
            assert(all[i as int] == items@[i as int]@);
            if items[i].discriminator == tag {
                let ghost before = descriptors_of(ordered@);
                ordered.push(copy_instruction(&items[i]));
                assert(descriptors_of(ordered@) =~= before.push(all[i as int]));
                break ;
            }
            i += 1;
        }
        bound += 1;
    }
    proof {
        lemma_by_tag(all, 256);
    }
    ordered
}

/// The instructions that the first `n` source files declare, in the order of
/// the files.
pub open spec fn declared_instructions(sources: Seq<String>, n: int) -> Seq<InstructionDescriptor>
    decreases n,
{
    if n <= 0 {
        Seq::empty()
    } else {
        match instruction_in_file(sources[n - 1]@) {
            Some(instruction) => declared_instructions(sources, n - 1).push(instruction),
            None => declared_instructions(sources, n - 1),
        }
    }
}

/// Reads the instructions of a program from the texts of its source files,
/// one instruction at most from each, and orders them by their tags.
pub fn extract_instruction_metadata(sources: &[String]) -> (instructions: Vec<InstructionMeta>)
    ensures
        descriptors_of(instructions@) == instructions_by_tag(
            declared_instructions(sources@, sources.len() as int),
        ),
        tags_ascend(descriptors_of(instructions@)),
{
    let mut declared: Vec<InstructionMeta> = Vec::new();
    assert(descriptors_of(declared@) =~= Seq::empty());
    let mut i: usize = 0;
    while i < sources.len()
        invariant
            i <= sources.len(),
            descriptors_of(declared@) == declared_instructions(sources@, i as int),
        decreases sources.len() - i,
    {
        match parse_instruction_file(sources[i].as_str()) {
            Some(instruction) => {
                let ghost before = descriptors_of(declared@);
                declared.push(instruction);
                assert(descriptors_of(declared@) =~= before.push(instruction@));
            },
            None => {},
        }
        i += 1;
    }
    order_by_tag(declared.as_slice())
}

/// The records that the first `n` source files declare, in the order of the
/// files.
pub open spec fn declared_records(sources: Seq<String>, n: int) -> Seq<StateRecord>
    decreases n,
{
    if n <= 0 {
        Seq::empty()
    } else {
        declared_records(sources, n - 1) + records_in_file(sources[n - 1]@)
    }
}

/// Reads the records of a program from the texts of its source files, as
/// one list.
pub fn extract_state_metadata(sources: &[String]) -> (records: Vec<StateMeta>)
    ensures
        records_of(records@) == declared_records(sources@, sources.len() as int),
{
    let mut records: Vec<StateMeta> = Vec::new();
    assert(records_of(records@) =~= Seq::empty());
    let mut i: usize = 0;
    while i < sources.len()
        invariant
            i <= sources.len(),
            records_of(records@) == declared_records(sources@, i as int),
        decreases sources.len() - i,
    {
        match parse_state_file(sources[i].as_str()) {
            Some(mut found) => {
                let ghost before = records_of(records@);
                let ghost added = records_of(found@);
                records.append(&mut found);
                assert(records_of(records@) =~= before + added);
            },
            None => {
                assert(declared_records(sources@, i as int) + records_in_file(sources@[i as int]@)
                    =~= declared_records(sources@, i as int));
            },
        }
        i += 1;
    }
    records
}

/// Whether one of the variants has the code `code`.
pub open spec fn has_code(variants: Seq<DomainVariant>, code: u32) -> bool {
    exists|k: int| 0 <= k < variants.len() && (#[trigger] variants[k]).code == code
}

/// Whether no two of the variants have the same code.
pub open spec fn codes_distinct(variants: Seq<DomainVariant>) -> bool {
    forall|i: int, j: int|
        0 <= i < j < variants.len() ==> (#[trigger] variants[i]).code != (#[trigger] variants[j]).code
}

/// Of the first `n` variants, in their order, those whose code no earlier
/// variant has.
pub open spec fn first_of_each_code(variants: Seq<DomainVariant>, n: int) -> Seq<DomainVariant>
    decreases n,
{
    if n <= 0 {
        Seq::empty()
    } else if has_code(first_of_each_code(variants, n - 1), variants[n - 1].code) {
        first_of_each_code(variants, n - 1)
    } else {
        first_of_each_code(variants, n - 1).push(variants[n - 1])
    }
}

/// The table with one variant for each code: the first that claims it.
pub open spec fn with_unique_codes(domain: ErrorDomain) -> ErrorDomain {
    ErrorDomain {
        name: domain.name,
        variants: first_of_each_code(domain.variants, domain.variants.len() as int),
    }
}

/// What is kept of the first `n` variants holds no code twice and holds
/// every code that one of them has.
pub proof fn lemma_first_of_each_code(variants: Seq<DomainVariant>, n: int)
    requires
        0 <= n <= variants.len(),
    ensures
        codes_distinct(first_of_each_code(variants, n)),
        forall|k: int|
            0 <= k < n ==> has_code(first_of_each_code(variants, n), (#[trigger] variants[k]).code),
        forall|k: int|
            0 <= k < first_of_each_code(variants, n).len() ==> has_code(
                variants,
                (#[trigger] first_of_each_code(variants, n)[k]).code,
            ),
    decreases n,
{
    if n > 0 {
        lemma_first_of_each_code(variants, n - 1);
        let before = first_of_each_code(variants, n - 1);
        let kept = first_of_each_code(variants, n);
        let last = variants[n - 1];
        if has_code(before, last.code) {
            assert(kept == before);
        } else {
            assert(kept == before.push(last));
            assert(kept[before.len() as int].code == last.code);
            assert forall|k: int| 0 <= k < n implies has_code(kept, (#[trigger] variants[k]).code) by {
                if k < n - 1 {
                    let w = choose|w: int|
                        0 <= w < before.len() && (#[trigger] before[w]).code == variants[k].code;
                    assert(kept[w] == before[w]);
                }
            }
            assert forall|i: int, j: int| 0 <= i < j < kept.len() implies (#[trigger] kept[i]).code
                != (#[trigger] kept[j]).code by {
                assert(kept[i] == before[i]);
                if j < before.len() {
                    assert(kept[j] == before[j]);
                }
            }
            assert forall|k: int| 0 <= k < kept.len() implies has_code(
                variants,
                (#[trigger] kept[k]).code,
            ) by {
                if k < before.len() {
                    assert(kept[k] == before[k]);
                } else {
                    assert(variants[n - 1].code == kept[k].code);
                }
            }
        }
    }
}

/// A table that holds no code twice is kept as it is.
pub proof fn lemma_distinct_codes_are_kept(variants: Seq<DomainVariant>, n: int)
    requires
        0 <= n <= variants.len(),
        codes_distinct(variants),
    ensures
        first_of_each_code(variants, n) == variants.subrange(0, n),
    decreases n,
{
    if n > 0 {
        lemma_distinct_codes_are_kept(variants, n - 1);
        let before = first_of_each_code(variants, n - 1);
        if has_code(before, variants[n - 1].code) {
            let w = choose|w: int|
                0 <= w < before.len() && (#[trigger] before[w]).code == variants[n - 1].code;
            assert(before[w] == variants[w]);
            assert(false);
        }
        assert(variants.subrange(0, n - 1).push(variants[n - 1]) =~= variants.subrange(0, n));
    } else {
        assert(variants.subrange(0, 0) =~= Seq::empty());
    }
}

/// Keeps of a table the first variant of each code.
pub fn unique_codes(table: &ErrorMeta) -> (unique: ErrorMeta)
    ensures
        unique@ == with_unique_codes(table@),
        codes_distinct(unique@.variants),
{
    let ghost all = variants_of(table.variants@);
    let mut kept: Vec<ErrorVariant> = Vec::new();
    assert(variants_of(kept@) =~= Seq::empty());
    let mut i: usize = 0;
    while i < table.variants.len()
        invariant
            i <= table.variants.len(),
            all == variants_of(table.variants@),
            variants_of(kept@) == first_of_each_code(all, i as int),
        decreases table.variants.len() - i,
    {
        let variant = &table.variants[i];
        assert(all[i as int] == variant@);
        let mut k: usize = 0;
        let mut seen = false;
        while k < kept.len()
            invariant_except_break
                !seen,
                forall|w: int| 0 <= w < k ==> (#[trigger] variants_of(kept@)[w]).code != variant.code,
            invariant
                k <= kept.len(),
            ensures
                seen == has_code(variants_of(kept@), variant.code),
            decreases kept.len() - k,
        {
            assert(variants_of(kept@)[k as int] == kept@[k as int]@);
            if kept[k].code == variant.code {
                seen = true;
                break ;
            }
            k += 1;
        }
        if !seen {
            let ghost before = variants_of(kept@);
            kept.push(ErrorVariant { name: variant.name.clone(), code: variant.code });
            assert(variants_of(kept@) =~= before.push(variant@));
        }
        i += 1;
    }
    proof {
        lemma_first_of_each_code(all, all.len() as int);
    }
    ErrorMeta { name: table.name.clone(), variants: kept }
}

/// The error tables of a program: the table that follows the first
/// `define_errors!` in the text, with one variant for each code, if the text
/// holds such a table and it is well formed.
pub open spec fn tables_in_file(content: Seq<char>) -> Seq<ErrorDomain> {
    match find(content, "define_errors!"@) {
        None => Seq::empty(),
        Some(m) => match table_of(content.subrange(m, content.len() as int)) {
            None => Seq::empty(),
            Some(table) => seq![with_unique_codes(table)],
        },
    }
}

/// Reads the error tables of a program from the text of the source file
/// that declares them.
pub fn extract_error_metadata(content: &str) -> (tables: Vec<ErrorMeta>)
    ensures
        domains_of(tables@) == tables_in_file(content@),
        forall|i: int| 0 <= i < tables.len() ==> codes_distinct((#[trigger] tables[i])@.variants),
{
    let text = chars_of(content);
    let mut tables: Vec<ErrorMeta> = Vec::new();
    match position(text.as_slice(), chars_of("define_errors!").as_slice()) {
        None => {},
        Some(m) => {
            match parse_error_macro(slice_subrange(text.as_slice(), m, text.len())) {
                None => {},
                Some(table) => {
                    let unique = unique_codes(&table);
                    tables.push(unique);
                    assert(domains_of(tables@) =~= seq![unique@]);
                },
            }
        },
    }
    assert(tables@.len() == 0 ==> domains_of(tables@) =~= Seq::empty());
    tables
}

/// Whether a file of this name is Rust source: the name ends with `.rs`, and
/// something stands before that.
pub open spec fn is_rust_source(file_name: Seq<char>) -> bool {
    ends_with(file_name, ".rs"@) && file_name.len() > ".rs"@.len()
}

/// Whether a file of the directory of the instructions is read: every Rust
/// source but `mod.rs`.
pub open spec fn declares_instruction(file_name: Seq<char>) -> bool {
    is_rust_source(file_name) && file_name != "mod.rs"@
}

/// Whether a file of the source directory is read for records: every Rust
/// source but `lib.rs`, `generated.rs` and `error.rs`.
pub open spec fn may_declare_state(file_name: Seq<char>) -> bool {
    &&& is_rust_source(file_name)
    &&& file_name != "lib.rs"@
    &&& file_name != "generated.rs"@
    &&& file_name != "error.rs"@
}

/// Decides whether a file of this name is Rust source.
pub fn has_rust_extension(file_name: &str) -> (r: bool)
    ensures
        r == is_rust_source(file_name@),
{
    let name = chars_of(file_name);
    let suffix = chars_of(".rs");
    has_suffix(name.as_slice(), suffix.as_slice()) && name.len() > suffix.len()
}

/// Decides whether a file of the directory of the instructions is read.
pub fn is_instruction_source(file_name: &str) -> (r: bool)
    ensures
        r == declares_instruction(file_name@),
{
    has_rust_extension(file_name) && !same_text(
        chars_of(file_name).as_slice(),
        chars_of("mod.rs").as_slice(),
    )
}

/// Decides whether a file of the source directory is read for records.
pub fn is_state_source(file_name: &str) -> (r: bool)
    ensures
        r == may_declare_state(file_name@),
{
    let name = chars_of(file_name);
    has_rust_extension(file_name) && !same_text(name.as_slice(), chars_of("lib.rs").as_slice())
        && !same_text(name.as_slice(), chars_of("generated.rs").as_slice()) && !same_text(
        name.as_slice(),
        chars_of("error.rs").as_slice(),
    )
}

} // verus!
