//! What holds of resolved profiles as a whole.
use crate::profile::dwarf;
use crate::profile::dwarf::ObjectFacts;
use crate::profile::markers;
use crate::profile::markers::ValueFacts;
use crate::profile::resolve;
use crate::profile::resolve::ContextFacts;
use crate::profile::resolved::ResolvedLibrary;
use crate::profile::symbols;
use crate::profile::symbols::{LibraryFacts, RawLibrarySymbols};
use crate::profile::types;
use crate::profile::types::{RawMarkerSchemaField, RawSampleTable, RawStackTable, RawThread};
use crate::text;
use crate::units::TimeValue;
use vstd::prelude::*;

verus! {

/// A stack is its own frame behind the frames of the stack above it: the leaf
/// comes last and the root first. A frame that the frame table lacks is left
/// out, and a stack that the stack table lacks is empty.
pub proof fn law_leaves_come_last(table: RawStackTable, frame_count: int, i: usize, steps: int)
    requires
        types::chain(table, frame_count, Some(i), steps) is Some,
    ensures
        ({
            let frames = types::chain(table, frame_count, Some(i), steps)->0;
            &&& i >= table.length ==> frames.len() == 0
            &&& i < table.length && table.frame@[i as int] < frame_count ==> frames.len() > 0
                && frames.last() == table.frame@[i as int]
            &&& i < table.length ==> types::chain(
                table,
                frame_count,
                table.prefix@[i as int],
                steps - 1,
            ) == Some(
                if table.frame@[i as int] < frame_count {
                    frames.drop_last()
                } else {
                    frames
                },
            )
            &&& forall|k: int| 0 <= k < frames.len() ==> (#[trigger] frames[k]) < frame_count
        }),
    decreases steps,
{
    let frames = types::chain(table, frame_count, Some(i), steps)->0;
    if i < table.length {
        let above = types::chain(table, frame_count, table.prefix@[i as int], steps - 1)->0;
        if let Some(j) = table.prefix@[i as int] {
            law_leaves_come_last(table, frame_count, j, steps - 1);
        }
        if table.frame@[i as int] < frame_count {
            assert(frames.drop_last() =~= above);
            assert forall|k: int| 0 <= k < frames.len() implies (#[trigger] frames[k])
                < frame_count by {
                if k < above.len() {
                    assert(frames[k] == above[k]);
                }
            }
        }
    }
}

/// A frame's line is its own where it has one, and else its function's. Its
/// name is that of its symbol only where the profile is not symbolicated and
/// the frame is not inlined, and else that of the function table.
pub proof fn law_frames_know_their_place(
    thread: RawThread,
    strings: Seq<String>,
    ctx: ContextFacts,
    i: int,
)
    ensures
        ({
            let frame = resolve::frame_of(thread, strings, ctx, i);
            let f = thread.frame_table.func@[i];
            let own = resolve::filled_cell(thread.frame_table.line, i);
            &&& own is Some ==> frame.line == own
            &&& own is None ==> frame.line == resolve::function_line(thread.func_table, f)
            &&& f < thread.func_table.length && thread.func_table.name@[f as int] < strings.len() && (
            !ctx.apply_symbol_names || frame.instruction is None
                || frame.instruction->0.symbol is None || frame.instruction->0.inline_depth != 0)
                ==> frame.function_name == strings[thread.func_table.name@[f as int] as int]@
            &&& ctx.apply_symbol_names && frame.instruction is Some
                && frame.instruction->0.symbol is Some && frame.instruction->0.inline_depth == 0
                ==> frame.function_name == frame.instruction->0.symbol->0.symbol_name
            &&& frame.instruction is Some <==> resolve::filled_cell(
                thread.frame_table.address,
                i,
            ) is Some && resolve::filled_cell(thread.frame_table.address, i)->0 >= 0
            &&& frame.instruction is Some ==> frame.instruction->0.address
                == resolve::filled_cell(thread.frame_table.address, i)->0
        }),
{
}

/// Where samples have time steps, each sample comes its step after the sample
/// before it, and the first its step after zero. Where they have times, those
/// count.
pub proof fn law_time_steps_add_up(table: RawSampleTable, i: int)
    requires
        0 <= i,
    ensures
        table.time matches Some(time) ==> i < time@.len() ==> resolve::timestamp_of(table, i)
            == time@[i],
        table.time is None ==> (table.time_deltas matches Some(deltas) ==> {
            &&& deltas@.len() > 0 ==> resolve::timestamp_of(table, 0) == deltas@[0]
            &&& i + 1 < deltas@.len() ==> (resolve::timestamp_of(table, i) matches TimeValue::Finite(
                a,
            ) ==> deltas@[i + 1] matches TimeValue::Finite(step) ==> i64::MIN <= a + step
                <= i64::MAX ==> resolve::timestamp_of(table, i + 1) == TimeValue::Finite(
                (a + step) as i64,
            ))
        }),
{
    if let Some(deltas) = table.time_deltas {
        reveal_with_fuel(resolve::elapsed, 2);
        if deltas@.len() > 0 {
            match deltas@[0] {
                TimeValue::Finite(step) => {
                    assert(resolve::elapsed(deltas@, 0) == TimeValue::Finite(0));
                    assert(resolve::elapsed(deltas@, 1) == TimeValue::Finite(step));
                },
                TimeValue::NotFinite => {},
            }
        }
    }
}

/// A library of a symbol file is found by its debug id, and only where no
/// library has that id by its name. Of several the last one counts, and an
/// empty id or name finds none.
pub proof fn law_libraries_are_found(libraries: Seq<LibraryFacts>, id: Seq<char>, n: int)
    requires
        0 <= n <= libraries.len(),
    ensures
        match symbols::library_by_id(libraries, id, n) {
            Some(i) => 0 <= i < n && id.len() > 0 && libraries[i].debug_id == id && forall|k: int|
                i < k < n ==> (#[trigger] libraries[k]).debug_id != id,
            None => id.len() == 0 || forall|k: int|
                0 <= k < n ==> (#[trigger] libraries[k]).debug_id != id,
        },
        match symbols::library_by_name(libraries, id, n) {
            Some(i) => 0 <= i < n && id.len() > 0 && libraries[i].debug_name == id && forall|k: int|
                i < k < n ==> (#[trigger] libraries[k]).debug_name != id,
            None => id.len() == 0 || forall|k: int|
                0 <= k < n ==> (#[trigger] libraries[k]).debug_name != id,
        },
    decreases n,
{
    if n > 0 {
        law_libraries_are_found(libraries, id, n - 1);
    }
}

/// A symbol is looked up in the library with the id, whatever others are named,
/// and in the one with the name where no library has the id.
pub proof fn law_ids_go_before_names(
    libraries: Seq<LibraryFacts>,
    id: Seq<char>,
    name: Seq<char>,
    address: u64,
    i: int,
)
    requires
        0 <= i < libraries.len(),
        (id.len() > 0 && libraries[i].debug_id == id && forall|k: int|
            i < k < libraries.len() ==> (#[trigger] libraries[k]).debug_id != id) || ((id.len() == 0
            || forall|k: int|
            0 <= k < libraries.len() ==> (#[trigger] libraries[k]).debug_id != id) && name.len() > 0
            && libraries[i].debug_name == name && forall|k: int|
            i < k < libraries.len() ==> (#[trigger] libraries[k]).debug_name != name),
    ensures
        symbols::symbol_at(libraries, id, name, address) is Some
            <==> libraries[i].addresses.contains_key(address),
        libraries[i].addresses.contains_key(address) ==> symbols::symbol_at(
            libraries,
            id,
            name,
            address,
        ) == Some(libraries[i].addresses[address]),
{
    law_libraries_are_found(libraries, id, libraries.len() as int);
    law_libraries_are_found(libraries, name, libraries.len() as int);
}

/// Of several known symbols at an address the last one counts.
pub proof fn law_last_symbol_counts(
    library: RawLibrarySymbols,
    strings: Seq<String>,
    k: int,
    n: int,
)
    requires
        0 <= k < n <= library.known_addresses@.len(),
        library.known_addresses@[k].1 < library.symbol_table@.len(),
        symbols::raw_symbol(
            library.symbol_table@[library.known_addresses@[k].1 as int],
            strings,
        ) is Some,
        forall|j: int|
            k < j < n ==> (#[trigger] library.known_addresses@[j]).0
                != library.known_addresses@[k].0,
    ensures
        symbols::known_symbols(library, strings, n).contains_key(library.known_addresses@[k].0),
        Some(symbols::known_symbols(library, strings, n)[library.known_addresses@[k].0])
            == symbols::raw_symbol(
            library.symbol_table@[library.known_addresses@[k].1 as int],
            strings,
        ),
    decreases n,
{
    if n > k + 1 {
        law_last_symbol_counts(library, strings, k, n - 1);
        assert(library.known_addresses@[n - 1].0 != library.known_addresses@[k].0);
    }
}

/// A debug id is compared without its dashes: none is left, and every other
/// character stays in its place among the rest.
pub proof fn law_dashes_are_dropped(s: Seq<char>)
    ensures
        exists|at: Seq<int>|
            #![trigger at.len()]
            {
                let r = symbols::without_dashes(s);
                &&& at.len() == r.len()
                &&& forall|i: int|
                    0 <= i < at.len() ==> 0 <= #[trigger] at[i] < s.len() && s[at[i]] != '-' && r[i]
                        == s[at[i]]
                &&& forall|i: int, j: int|
                    #![trigger at[i], at[j]]
                    0 <= i < j < at.len() ==> at[i] < at[j]
                &&& forall|k: int|
                    #![trigger s[k]]
                    0 <= k < s.len() && s[k] != '-' ==> at.contains(k)
            },
{
    let at = lemma_dash_positions(s);
    assert(at.len() == at.len());
}

proof fn lemma_dash_positions(s: Seq<char>) -> (at: Seq<int>)
    ensures
        at.len() == symbols::without_dashes(s).len(),
        forall|i: int|
            0 <= i < at.len() ==> 0 <= #[trigger] at[i] < s.len() && s[at[i]] != '-'
                && symbols::without_dashes(s)[i] == s[at[i]],
        forall|i: int, j: int|
            #![trigger at[i], at[j]]
            0 <= i < j < at.len() ==> at[i] < at[j],
        forall|k: int|
            #![trigger s[k]]
            0 <= k < s.len() && s[k] != '-' ==> at.contains(k),
    decreases s.len(),
{
    if s.len() == 0 {
        Seq::empty()
    } else {
        let rest = s.drop_last();
        let before = lemma_dash_positions(rest);
        assert forall|i: int| 0 <= i < before.len() implies s[#[trigger] before[i]]
            == rest[before[i]] by {}
        if s.last() == '-' {
            assert forall|k: int|
                #![trigger s[k]]
                0 <= k < s.len() && s[k] != '-' implies before.contains(k) by {
                assert(rest[k] == s[k]);
            }
            before
        } else {
            let at = before.push(s.len() - 1);
            assert forall|k: int|
                #![trigger s[k]]
                0 <= k < s.len() && s[k] != '-' implies at.contains(k) by {
                if k < rest.len() {
                    assert(rest[k] == s[k]);
                    let i = choose|i: int| 0 <= i < before.len() && before[i] == k;
                    assert(at[i] == k);
                } else {
                    assert(at[before.len() as int] == k);
                }
            }
            at
        }
    }
}

/// The value of a field is that of the first field with its key.
pub proof fn law_first_field_counts(fields: Seq<(Seq<char>, ValueFacts)>, key: Seq<char>, i: int)
    requires
        0 <= i < fields.len(),
        fields[i].0 == key,
        forall|k: int| 0 <= k < i ==> (#[trigger] fields[k]).0 != key,
    ensures
        markers::field_value(fields, key) == Some(fields[i].1),
{
    lemma_first_field(fields, key, 0, i);
}

proof fn lemma_first_field(
    fields: Seq<(Seq<char>, ValueFacts)>,
    key: Seq<char>,
    from: int,
    i: int,
)
    requires
        0 <= from <= i < fields.len(),
        fields[i].0 == key,
        forall|k: int| from <= k < i ==> (#[trigger] fields[k]).0 != key,
    ensures
        markers::field_at(fields, key, from) == Some(i),
    decreases i - from,
{
    if from < i {
        lemma_first_field(fields, key, from + 1, i);
    }
}

/// A field that the schema declares as an index into the string table becomes
/// the string, where the table has it; no other field changes, and none comes
/// or goes.
pub proof fn law_string_fields_are_resolved(
    fields: Seq<(Seq<char>, ValueFacts)>,
    field: RawMarkerSchemaField,
    strings: Seq<String>,
    i: int,
)
    requires
        0 <= i < fields.len(),
        field.key is Some,
        fields[i].0 == field.key->0@,
        forall|k: int| 0 <= k < i ==> (#[trigger] fields[k]).0 != field.key->0@,
    ensures
        ({
            let after = markers::with_string(fields, field, strings);
            &&& after.len() == fields.len()
            &&& forall|k: int|
                0 <= k < fields.len() && k != i ==> #[trigger] after[k] == fields[k]
            &&& after[i].0 == fields[i].0
            &&& text::opt(field.format) != Some("unique-string"@) ==> after[i] == fields[i]
            &&& text::opt(field.format) == Some("unique-string"@) ==> (fields[i].1 matches ValueFacts::Number {
                text,
                unsigned: Some(index),
            } ==> after[i].1 == if index < strings.len() {
                ValueFacts::Text(strings[index as int]@)
            } else {
                fields[i].1
            })
        }),
{
    lemma_first_field(fields, field.key->0@, 0, i);
}

/// A marker tells of time on a CPU exactly where its type is `OnCpu` and it
/// names the CPU, as text or as a number; without a reason for leaving the CPU
/// the reason is unknown.
pub proof fn law_on_cpu_markers(fields: Seq<(Seq<char>, ValueFacts)>)
    ensures
        markers::on_cpu_fields(fields) is Some <==> markers::field_value(fields, "type"@) == Some(
            ValueFacts::Text("OnCpu"@),
        ) && (markers::field_value(fields, "cpu"@) matches Some(value) && (value is Text || value
            is Number)),
        markers::on_cpu_fields(fields) matches Some((cpu, reason)) ==> {
            &&& markers::field_value(fields, "cpu"@) matches Some(ValueFacts::Text(s)) ==> cpu == s
            &&& markers::field_value(fields, "outwhy"@) matches Some(ValueFacts::Text(s)) ==> reason
                == s
            &&& markers::field_value(fields, "outwhy"@) is None ==> reason == "unknown"@
        },
{
}

/// Addresses are relative to the segment `__TEXT` of an object file, wherever
/// it stands; without one, to the first segment of an ELF file, and else to the
/// base that the file gives.
pub proof fn law_address_bases(object: ObjectFacts, i: int)
    ensures
        0 <= i < object.segments.len() && object.segments[i].0 == Some("__TEXT"@) && (forall|k: int|
            0 <= k < i ==> (#[trigger] object.segments[k]).0 != Some("__TEXT"@))
            ==> dwarf::address_base(object) == object.segments[i].1,
        (forall|k: int|
            0 <= k < object.segments.len() ==> (#[trigger] object.segments[k]).0 != Some(
                "__TEXT"@,
            )) ==> dwarf::address_base(object) == if object.elf_flags && object.segments.len() > 0 {
            object.segments[0].1
        } else {
            object.relative_address_base
        },
{
    lemma_segment(object.segments, "__TEXT"@, 0);
}

proof fn lemma_segment(segments: Seq<(Option<Seq<char>>, u64)>, name: Seq<char>, from: int)
    requires
        0 <= from,
    ensures
        match dwarf::segment_named(segments, name, from) {
            Some(address) => exists|i: int|
                from <= i < segments.len() && #[trigger] segments[i] == (Some(name), address)
                    && forall|k: int| from <= k < i ==> (#[trigger] segments[k]).0 != Some(name),
            None => forall|k: int|
                from <= k < segments.len() ==> (#[trigger] segments[k]).0 != Some(name),
        },
    decreases segments.len() - from,
{
    if from < segments.len() {
        if segments[from].0 == Some(name) {
            assert(segments[from] == (Some(name), segments[from].1));
        } else {
            lemma_segment(segments, name, from + 1);
        }
    }
}

/// Where both a debug file and a binary are recorded the debug file is tried
/// first; nothing that is not recorded is tried, and no file twice.
pub proof fn law_debug_files_go_first(library: ResolvedLibrary, same_file: bool)
    ensures
        ({
            let files = dwarf::candidates(library, same_file);
            &&& library.debug_path@.len() > 0 ==> files.len() > 0 && files[0] == library.debug_path@
            &&& library.debug_path@.len() == 0 && library.path@.len() > 0 ==> files == seq![
                library.path@,
            ]
            &&& library.debug_path@.len() > 0 && library.path@.len() > 0 && !same_file ==> files
                == seq![library.debug_path@, library.path@]
            &&& same_file ==> files.len() <= 1
            &&& forall|i: int| 0 <= i < files.len() ==> (#[trigger] files[i]).len() > 0
        }),
{
}

/// An address behind a base is found again by adding the base, and one before
/// it has no relative form.
pub proof fn law_relative_addresses(address: u64, base: u64)
    ensures
        dwarf::relative_to(Some(address), base) matches Some(offset) ==> base + offset == address,
        dwarf::relative_to(Some(address), base) is None <==> address < base,
{
}

}
