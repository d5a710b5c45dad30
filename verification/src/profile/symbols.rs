//! Symbols of sampled addresses, as a sidecar file lists them.
use crate::shared::share;
use crate::text;
use std::collections::HashMap;
use std::sync::Arc;
use vstd::prelude::*;

verus! {

broadcast use vstd::std_specs::hash::group_hash_axioms;

/// Symbol and source information for one sampled instruction address.
#[derive(Debug, Clone, PartialEq, Eq)]
pub struct SymbolAddressInfo {
    pub symbol_name: String,
    pub symbol_start_address: u64,
    pub symbol_size: Option<u64>,
    /// Debug frames ordered from the outer function to the deepest inline frame.
    pub frames: Vec<SymbolSourceFrame>,
}

/// A source position inside a symbol.
#[derive(Debug, Clone, PartialEq, Eq)]
pub struct SymbolSourceFrame {
    pub function_name: String,
    pub file: Option<String>,
    pub line: Option<u32>,
}

/// A function at a source position, as mathematics.
#[verifier::ext_equal]
pub struct SourcePoint {
    pub function_name: Seq<char>,
    pub file: Option<Seq<char>>,
    pub line: Option<u32>,
}

impl SymbolSourceFrame {
    /// What the frame says.
    pub open spec fn point(self) -> SourcePoint {
        SourcePoint {
            function_name: self.function_name@,
            file: text::opt(self.file),
            line: self.line,
        }
    }
}

/// A symbol, as mathematics.
#[verifier::ext_equal]
pub struct SymbolFacts {
    pub symbol_name: Seq<char>,
    pub symbol_start_address: u64,
    pub symbol_size: Option<u64>,
    pub frames: Seq<SourcePoint>,
}

impl SymbolAddressInfo {
    /// What the symbol says.
    pub open spec fn symbol(self) -> SymbolFacts {
        SymbolFacts {
            symbol_name: self.symbol_name@,
            symbol_start_address: self.symbol_start_address,
            symbol_size: self.symbol_size,
            frames: Seq::new(self.frames@.len(), |i: int| self.frames@[i].point()),
        }
    }
}

/// A symbol sidecar as its file lists it.
#[derive(Debug)]
pub struct RawSymbolSidecar {
    pub data: Vec<RawLibrarySymbols>,
    pub string_table: Vec<String>,
}

/// The symbols of one library as the file lists them.
#[derive(Debug)]
pub struct RawLibrarySymbols {
    pub debug_name: String,
    pub debug_id: String,
    pub symbol_table: Vec<RawSymbolAddressInfo>,
    pub known_addresses: Vec<(u64, usize)>,
}

/// One symbol as the file lists it.
#[derive(Debug)]
pub struct RawSymbolAddressInfo {
    pub rva: u64,
    pub size: Option<u64>,
    pub symbol: usize,
    pub frames: Option<Vec<RawSymbolSourceFrame>>,
}

/// One source position as the file lists it.
#[derive(Debug)]
pub struct RawSymbolSourceFrame {
    pub function: Option<usize>,
    pub file: Option<usize>,
    pub line: Option<u32>,
}

/// The entry of a string table, if it has one there.
pub open spec fn entry(strings: Seq<String>, index: Option<usize>) -> Option<Seq<char>> {
    match index {
        Some(i) => if i < strings.len() {
            Some(strings[i as int]@)
        } else {
            None
        },
        None => None,
    }
}

/// The source position that a listed frame gives, if it names its function.
pub open spec fn raw_point(frame: RawSymbolSourceFrame, strings: Seq<String>) -> Option<SourcePoint> {
    match entry(strings, frame.function) {
        Some(function_name) => Some(
            SourcePoint { function_name, file: entry(strings, frame.file), line: frame.line },
        ),
        None => None,
    }
}

/// The source positions of the listed frames from `from` on, in reverse: the
/// file lists the deepest inline frame first.
pub open spec fn reversed_points(
    frames: Seq<RawSymbolSourceFrame>,
    strings: Seq<String>,
    from: int,
) -> Seq<SourcePoint>
    decreases frames.len() - from,
{
    if from < 0 || from >= frames.len() {
        Seq::empty()
    } else {
        match raw_point(frames[from], strings) {
            Some(point) => reversed_points(frames, strings, from + 1).push(point),
            None => reversed_points(frames, strings, from + 1),
        }
    }
}

/// The symbol that a listed entry gives, if it has a name.
pub open spec fn raw_symbol(symbol: RawSymbolAddressInfo, strings: Seq<String>) -> Option<SymbolFacts> {
    match entry(strings, Some(symbol.symbol)) {
        Some(symbol_name) => Some(
            SymbolFacts {
                symbol_name,
                symbol_start_address: symbol.rva,
                symbol_size: symbol.size,
                frames: match symbol.frames {
                    Some(frames) => reversed_points(frames@, strings, 0),
                    None => Seq::empty(),
                },
            },
        ),
        None => None,
    }
}

/// The symbols of the first `n` known addresses of a library. A later entry
/// for the same address replaces an earlier one.
pub open spec fn known_symbols(library: RawLibrarySymbols, strings: Seq<String>, n: int) -> Map<
    u64,
    SymbolFacts,
>
    decreases n,
{
    if n <= 0 {
        Map::empty()
    } else {
        let before = known_symbols(library, strings, n - 1);
        let (address, index) = library.known_addresses@[n - 1];
        if index < library.symbol_table@.len() {
            match raw_symbol(library.symbol_table@[index as int], strings) {
                Some(symbol) => before.insert(address, symbol),
                None => before,
            }
        } else {
            before
        }
    }
}

/// Debug ids are compared without dashes, without regard to case, and without
/// the zeros at their end.
pub open spec fn normal_debug_id(value: Seq<char>) -> Seq<char> {
    text::trimmed_end_by(text::unicode_lowercase(without_dashes(value)), |c: char| c == '0')
}

/// A text without its dashes.
pub open spec fn without_dashes(s: Seq<char>) -> Seq<char>
    decreases s.len(),
{
    if s.len() == 0 {
        Seq::empty()
    } else if s.last() == '-' {
        without_dashes(s.drop_last())
    } else {
        without_dashes(s.drop_last()).push(s.last())
    }
}

/// Removes the zeros at the end of a text.
pub fn trim_trailing_zeros(value: &str) -> (r: String)
    ensures
        r@ == text::trimmed_end_by(value@, |c: char| c == '0'),
{
    let mut chars = text::chars_of(value);
    while chars.len() > 0 && chars[chars.len() - 1] == '0'
        invariant
            text::trimmed_end_by(value@, |c: char| c == '0') == text::trimmed_end_by(
                chars@,
                |c: char| c == '0',
            ),
        decreases chars@.len(),
    {
        let _ = chars.pop();
    }
    text::string_of(&chars)
}

/// Removes the dashes of a text.
pub fn remove_dashes(value: &str) -> (r: String)
    ensures
        r@ == without_dashes(value@),
{
    let chars = text::chars_of(value);
    let mut out = String::new();
    let mut i: usize = 0;
    while i < chars.len()
        invariant
            i <= chars@.len(),
            out@ == without_dashes(chars@.take(i as int)),
        decreases chars@.len() - i,
    {
        assert(chars@.take(i + 1).drop_last() =~= chars@.take(i as int));
        if chars[i] != '-' {
            out.push(chars[i]);
        }
        i += 1;
    }
    assert(chars@.take(chars@.len() as int) =~= chars@);
    out
}

/// The form in which debug ids are compared.
pub fn normalize_debug_id(value: &str) -> (r: String)
    ensures
        r@ == normal_debug_id(value@),
{
    let bare = remove_dashes(value);
    let lower = text::to_lowercase(bare.as_str());
    trim_trailing_zeros(lower.as_str())
}

/// The symbols of one library.
#[derive(Debug)]
pub struct LibrarySymbols {
    pub debug_id: String,
    pub debug_name: String,
    pub addresses: HashMap<u64, Arc<SymbolAddressInfo>>,
}

/// The symbols of one library, as mathematics.
#[verifier::ext_equal]
pub struct LibraryFacts {
    pub debug_id: Seq<char>,
    pub debug_name: Seq<char>,
    pub addresses: Map<u64, SymbolFacts>,
}

impl LibrarySymbols {
    /// What the library's symbols say.
    pub open spec fn library(self) -> LibraryFacts {
        LibraryFacts {
            debug_id: self.debug_id@,
            debug_name: self.debug_name@,
            addresses: self.addresses@.map_values(|s: Arc<SymbolAddressInfo>| s.symbol()),
        }
    }
}

/// The symbols of all libraries.
#[derive(Debug)]
pub struct SymbolSidecar {
    pub libraries: Vec<LibrarySymbols>,
}

/// What a listed library says.
pub open spec fn raw_library(library: RawLibrarySymbols, strings: Seq<String>) -> LibraryFacts {
    LibraryFacts {
        debug_id: normal_debug_id(library.debug_id@),
        debug_name: library.debug_name@,
        addresses: known_symbols(library, strings, library.known_addresses@.len() as int),
    }
}

/// The last library among the first `n` with a debug id.
pub open spec fn library_by_id(libraries: Seq<LibraryFacts>, id: Seq<char>, n: int) -> Option<int>
    decreases n,
{
    if n <= 0 || id.len() == 0 {
        None
    } else if libraries[n - 1].debug_id == id {
        Some(n - 1)
    } else {
        library_by_id(libraries, id, n - 1)
    }
}

/// The last library among the first `n` with a debug name.
pub open spec fn library_by_name(libraries: Seq<LibraryFacts>, name: Seq<char>, n: int) -> Option<int>
    decreases n,
{
    if n <= 0 || name.len() == 0 {
        None
    } else if libraries[n - 1].debug_name == name {
        Some(n - 1)
    } else {
        library_by_name(libraries, name, n - 1)
    }
}

/// The symbol at an address of a library, which is found by its normalized
/// debug id, or by its name if no library has that id.
pub open spec fn symbol_at(
    libraries: Seq<LibraryFacts>,
    id: Seq<char>,
    name: Seq<char>,
    address: u64,
) -> Option<SymbolFacts> {
    let n = libraries.len() as int;
    let found = match library_by_id(libraries, id, n) {
        Some(i) => Some(i),
        None => library_by_name(libraries, name, n),
    };
    match found {
        Some(i) => if libraries[i].addresses.contains_key(address) {
            Some(libraries[i].addresses[address])
        } else {
            None
        },
        None => None,
    }
}

impl SymbolSidecar {
    /// What the sidecar says.
    pub open spec fn facts(self) -> Seq<LibraryFacts> {
        Seq::new(self.libraries@.len(), |i: int| self.libraries@[i].library())
    }

    /// The sidecar that a file lists. Inline frames are turned round: the file
    /// lists the deepest first, the result the outermost.
    pub fn from_raw(raw: &RawSymbolSidecar) -> (r: Self)
        ensures
            r.facts().len() == raw.data@.len(),
            forall|i: int|
                0 <= i < raw.data@.len() ==> #[trigger] r.facts()[i] == raw_library(
                    raw.data@[i],
                    raw.string_table@,
                ),
    {
        let mut libraries: Vec<LibrarySymbols> = Vec::new();
        let mut i: usize = 0;
        while i < raw.data.len()
            invariant
                i <= raw.data@.len(),
                libraries@.len() == i,
                forall|k: int|
                    0 <= k < i ==> #[trigger] libraries@[k].library() == raw_library(
                        raw.data@[k],
                        raw.string_table@,
                    ),
            decreases raw.data@.len() - i,
        {
            libraries.push(read_library(&raw.data[i], &raw.string_table));
            i += 1;
        }
        SymbolSidecar { libraries }
    }

    /// The symbol at an address of a library.
    pub fn lookup(&self, breakpad_id: &str, debug_name: &str, address: u64) -> (r: Option<
        &Arc<SymbolAddressInfo>,
    >)
        ensures
            match r {
                Some(symbol) => symbol_at(
                    self.facts(),
                    normal_debug_id(breakpad_id@),
                    debug_name@,
                    address,
                ) == Some(symbol.symbol()),
                None => symbol_at(
                    self.facts(),
                    normal_debug_id(breakpad_id@),
                    debug_name@,
                    address,
                ) is None,
            },
    {
        let id = normalize_debug_id(breakpad_id);
        self.lookup_normalized(id.as_str(), debug_name, address)
    }

    /// The symbol at an address of a library, by its normalized debug id.
    pub fn lookup_normalized(&self, id: &str, debug_name: &str, address: u64) -> (r: Option<
        &Arc<SymbolAddressInfo>,
    >)
        ensures
            match r {
                Some(symbol) => symbol_at(self.facts(), id@, debug_name@, address) == Some(
                    symbol.symbol(),
                ),
                None => symbol_at(self.facts(), id@, debug_name@, address) is None,
            },
    {
        let found: usize = match self.by_id(id) {
            Some(i) => i,
            None => match self.by_name(debug_name) {
                Some(i) => i,
                None => {
                    return None;
                },
            },
        };
        assert(self.facts()[found as int] == self.libraries@[found as int].library());
        self.libraries[found].addresses.get(&address)
    }

    fn by_id(&self, id: &str) -> (r: Option<usize>)
        ensures
            match r {
                Some(i) => i < self.libraries@.len() && library_by_id(
                    self.facts(),
                    id@,
                    self.libraries@.len() as int,
                ) == Some(i as int),
                None => library_by_id(self.facts(), id@, self.libraries@.len() as int) is None,
            },
    {
        if id.is_empty() {
            return None;
        }
        let mut n: usize = self.libraries.len();
        while n > 0
            invariant
                n <= self.libraries@.len(),
                id@.len() > 0,
                library_by_id(self.facts(), id@, self.libraries@.len() as int) == library_by_id(
                    self.facts(),
                    id@,
                    n as int,
                ),
            decreases n,
        {
            assert(self.facts()[n - 1] == self.libraries@[n - 1].library());
            if text::text_eq(self.libraries[n - 1].debug_id.as_str(), id) {
                return Some(n - 1);
            }
            n -= 1;
        }
        None
    }

    fn by_name(&self, name: &str) -> (r: Option<usize>)
        ensures
            match r {
                Some(i) => i < self.libraries@.len() && library_by_name(
                    self.facts(),
                    name@,
                    self.libraries@.len() as int,
                ) == Some(i as int),
                None => library_by_name(self.facts(), name@, self.libraries@.len() as int) is None,
            },
    {
        if name.is_empty() {
            return None;
        }
        let mut n: usize = self.libraries.len();
        while n > 0
            invariant
                n <= self.libraries@.len(),
                name@.len() > 0,
                library_by_name(self.facts(), name@, self.libraries@.len() as int)
                    == library_by_name(self.facts(), name@, n as int),
            decreases n,
        {
            assert(self.facts()[n - 1] == self.libraries@[n - 1].library());
            if text::text_eq(self.libraries[n - 1].debug_name.as_str(), name) {
                return Some(n - 1);
            }
            n -= 1;
        }
        None
    }
}

/// The entry of a string table, if it has one there.
fn string_at(strings: &Vec<String>, index: Option<usize>) -> (r: Option<String>)
    ensures
        text::opt(r) == entry(strings@, index),
{
    match index {
        Some(i) => {
            if i < strings.len() {
                Some(strings[i].clone())
            } else {
                None
            }
        },
        None => None,
    }
}

/// The symbol that a listed entry gives, if it has a name.
fn read_symbol(raw: &RawSymbolAddressInfo, strings: &Vec<String>) -> (r: Option<SymbolAddressInfo>)
    ensures
        match r {
            Some(symbol) => raw_symbol(*raw, strings@) == Some(symbol.symbol()),
            None => raw_symbol(*raw, strings@) is None,
        },
{
    let symbol_name = match string_at(strings, Some(raw.symbol)) {
        Some(name) => name,
        None => {
            return None;
        },
    };
    let mut frames: Vec<SymbolSourceFrame> = Vec::new();
    if let Some(listed) = &raw.frames {
        let mut n: usize = listed.len();
        while n > 0
            invariant
                n <= listed@.len(),
                Seq::new(frames@.len(), |i: int| frames@[i].point()) == reversed_points(
                    listed@,
                    strings@,
                    n as int,
                ),
            decreases n,
        {
            let frame = &listed[n - 1];
            if let Some(function_name) = string_at(strings, frame.function) {
                let ghost before = frames@;
                frames.push(
                    SymbolSourceFrame {
                        function_name,
                        file: string_at(strings, frame.file),
                        line: frame.line,
                    },
                );
                proof {
                    let point = frames@.last().point();
                    assert(Seq::new(frames@.len(), |i: int| frames@[i].point()) =~= Seq::new(
                        before.len(),
                        |i: int| before[i].point(),
                    ).push(point));
                    assert(raw_point(*frame, strings@) == Some(point));
                }
            }
            n -= 1;
        }
    }
    let symbol = SymbolAddressInfo {
        symbol_name,
        symbol_start_address: raw.rva,
        symbol_size: raw.size,
        frames,
    };
    assert(symbol.symbol().frames =~= raw_symbol(*raw, strings@).unwrap().frames);
    Some(symbol)
}

/// What a listed symbol says, where it has a name.
spec fn shared_symbol(s: Option<Arc<SymbolAddressInfo>>) -> Option<SymbolFacts> {
    match s {
        Some(s) => Some(s.symbol()),
        None => None,
    }
}

/// The symbols of one library that a file lists.
fn read_library(raw: &RawLibrarySymbols, strings: &Vec<String>) -> (r: LibrarySymbols)
    ensures
        r.library() == raw_library(*raw, strings@),
{
    let mut symbols: Vec<Option<Arc<SymbolAddressInfo>>> = Vec::new();
    let mut i: usize = 0;
    while i < raw.symbol_table.len()
        invariant
            i <= raw.symbol_table@.len(),
            symbols@.len() == i,
            forall|k: int|
                0 <= k < i ==> shared_symbol(#[trigger] symbols@[k]) == raw_symbol(
                    raw.symbol_table@[k],
                    strings@,
                ),
        decreases raw.symbol_table@.len() - i,
    {
        let symbol: Option<Arc<SymbolAddressInfo>> = match read_symbol(
            &raw.symbol_table[i],
            strings,
        ) {
            Some(symbol) => Some(Arc::new(symbol)),
            None => None,
        };
        symbols.push(symbol);
        i += 1;
    }
    let mut addresses: HashMap<u64, Arc<SymbolAddressInfo>> = HashMap::new();
    let ghost facts_of = |s: Arc<SymbolAddressInfo>| s.symbol();
    let mut n: usize = 0;
    assert(addresses@.map_values(facts_of) =~= Map::<u64, SymbolFacts>::empty());
    while n < raw.known_addresses.len()
        invariant
            n <= raw.known_addresses@.len(),
            facts_of == |s: Arc<SymbolAddressInfo>| s.symbol(),
            symbols@.len() == raw.symbol_table@.len(),
            forall|k: int|
                0 <= k < symbols@.len() ==> shared_symbol(#[trigger] symbols@[k]) == raw_symbol(
                    raw.symbol_table@[k],
                    strings@,
                ),
            addresses@.map_values(facts_of) == known_symbols(*raw, strings@, n as int),
        decreases raw.known_addresses@.len() - n,
    {
        let (address, index) = raw.known_addresses[n];
        if index < symbols.len() {
            assert(shared_symbol(symbols@[index as int]) == raw_symbol(
                raw.symbol_table@[index as int],
                strings@,
            ));
            if let Some(symbol) = &symbols[index] {
                let ghost before = addresses@;
                addresses.insert(address, share(symbol));
                assert(addresses@.map_values(facts_of) =~= before.map_values(facts_of).insert(
                    address,
                    symbol.symbol(),
                ));
            }
        }
        n += 1;
    }
    LibrarySymbols {
        debug_id: normalize_debug_id(raw.debug_id.as_str()),
        debug_name: raw.debug_name.clone(),
        addresses,
    }
}

/// A listed chain of inline frames comes out in reverse order when every frame
/// names its function.
pub proof fn law_inline_frames_are_reversed(
    frames: Seq<RawSymbolSourceFrame>,
    strings: Seq<String>,
    from: int,
)
    requires
        0 <= from <= frames.len(),
        forall|i: int| 0 <= i < frames.len() ==> raw_point(#[trigger] frames[i], strings) is Some,
    ensures
        reversed_points(frames, strings, from).len() == frames.len() - from,
        forall|i: int|
            0 <= i < frames.len() - from ==> #[trigger] reversed_points(frames, strings, from)[i]
                == raw_point(frames[frames.len() - 1 - i], strings).unwrap(),
    decreases frames.len() - from,
{
    if from < frames.len() {
        assert(raw_point(frames[from], strings) is Some);
        law_inline_frames_are_reversed(frames, strings, from + 1);
    }
}

}
