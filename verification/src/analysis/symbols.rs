//! Function names: stable ids, short forms and framework code.
use crate::fnv;
use crate::text;
use vstd::prelude::*;
use vstd::string::*;
use vstd::utf8::*;

verus! {

/// The stable id of a function: a hash of its name.
pub open spec fn id_of(name: Seq<char>) -> Seq<char> {
    "fn:"@ + text::padded_hex(fnv::of_text(name) as nat, 16)
}

/// The stable id of a function: the same name gives the same id in every run.
pub fn function_id(name: &str) -> (r: String)
    ensures
        r@ == id_of(name@),
{
    let hash: u64 = fnv::hash_text(name);
    let mut out = "fn:".to_string();
    text::push_padded_hex(&mut out, hash, 16);
    out
}

/// Whether a character can be part of a path.
pub open spec fn path_char(c: char) -> bool {
    text::ascii_alphanumeric(c) || c == '_' || c == ':' || c == '#' || c == '$'
}

/// Whether a character can be part of a path.
fn is_path_char(ch: char) -> (r: bool)
    ensures
        r == path_char(ch),
{
    text::is_digit(ch) || ('a' <= ch && ch <= 'z') || ('A' <= ch && ch <= 'Z') || ch == '_' || ch
        == ':' || ch == '#' || ch == '$'
}

/// The last of the first `n` pieces that is not empty.
pub open spec fn last_filled(segments: Seq<Seq<char>>, n: int) -> Option<Seq<char>>
    decreases n,
{
    if n <= 0 {
        None
    } else if segments[n - 1].len() > 0 {
        Some(segments[n - 1])
    } else {
        last_filled(segments, n - 1)
    }
}

/// A path reduced to its last segment. A leading `::` stays.
pub open spec fn compact_token(token: Seq<char>) -> Seq<char> {
    if text::has_text(token, "::"@) {
        let segments = text::pieces(token, "::"@);
        let last = match last_filled(segments, segments.len() as int) {
            Some(segment) => segment,
            None => token,
        };
        if text::begins_with(token, "::"@) {
            "::"@ + last
        } else {
            last
        }
    } else {
        token
    }
}

/// The length of the run of path characters that a text begins with.
pub open spec fn run_len(s: Seq<char>) -> nat
    decreases s.len(),
{
    if s.len() > 0 && path_char(s[0]) {
        1 + run_len(s.skip(1))
    } else {
        0
    }
}

proof fn lemma_run_len(s: Seq<char>)
    ensures
        run_len(s) <= s.len(),
        forall|i: int| 0 <= i < run_len(s) ==> path_char(s[i]),
        run_len(s) < s.len() ==> !path_char(s[run_len(s) as int]),
    decreases s.len(),
{
    if s.len() > 0 && path_char(s[0]) {
        lemma_run_len(s.skip(1));
        assert forall|i: int| 0 <= i < run_len(s) implies path_char(s[i]) by {
            if i > 0 {
                assert(s.skip(1)[i - 1] == s[i]);
            }
        }
    }
}

/// A run of path characters followed by another character has its full length.
proof fn lemma_run_exact(s: Seq<char>, n: int)
    requires
        0 <= n <= s.len(),
        forall|i: int| 0 <= i < n ==> path_char(s[i]),
        n < s.len() ==> !path_char(s[n]),
    ensures
        run_len(s) == n,
    decreases s.len(),
{
    if n > 0 {
        lemma_run_exact(s.skip(1), n - 1);
    }
}

/// A name with every run of path characters reduced to its last segment.
pub open spec fn compact_runs(s: Seq<char>) -> Seq<char>
    decreases s.len(),
    via compact_runs_end
{
    let n = run_len(s) as int;
    if n >= s.len() {
        compact_token(s)
    } else {
        compact_token(s.take(n)) + seq![s[n]] + compact_runs(s.skip(n + 1))
    }
}

#[via_fn]
proof fn compact_runs_end(s: Seq<char>) {
    lemma_run_len(s);
}

/// The short form of a name, or the name itself where that is no longer in bytes.
pub open spec fn compact_of(name: Seq<char>) -> Seq<char> {
    let short = compact_runs(name);
    if encode_utf8(short).len() < encode_utf8(name).len() {
        short
    } else {
        name
    }
}

/// The compact form of one path.
fn compacted_token(token: &Vec<char>) -> (r: String)
    ensures
        r@ == compact_token(token@),
{
    let separator = text::chars_of("::");
    let mut out = String::new();
    proof {
        text::lemma_find_from(token@, "::"@, 0);
        reveal_strlit("::");
    }
    match text::find_in(token, &separator, 0) {
        None => {
            return text::string_of(token);
        },
        Some(first) => {
            if first == 0 {
                text::push_text(&mut out, "::");
            }
        },
    }
    let segments = text::split_pieces(token, &separator);
    let ghost views = text::char_views(segments@);
    let mut n: usize = segments.len();
    while n > 0
        invariant
            n <= segments@.len(),
            views == text::char_views(segments@),
            views == text::pieces(token@, "::"@),
            last_filled(views, segments@.len() as int) == last_filled(views, n as int),
            text::has_text(token@, "::"@),
            out@ == (if text::begins_with(token@, "::"@) {
                "::"@
            } else {
                Seq::empty()
            }),
        decreases n,
    {
        if segments[n - 1].len() > 0 {
            let last = text::string_of(&segments[n - 1]);
            text::push_text(&mut out, last.as_str());
            assert(out@ =~= compact_token(token@));
            return out;
        }
        n -= 1;
    }
    let whole = text::string_of(token);
    text::push_text(&mut out, whole.as_str());
    assert(out@ =~= compact_token(token@));
    out
}

/// Appends the compact form of a path.
fn push_compact_token(output: &mut String, token: &Vec<char>)
    ensures
        final(output)@ == old(output)@ + compact_token(token@),
{
    let short = compacted_token(token);
    text::push_text(output, short.as_str());
}

/// Shortens a function name: every path inside it, also inside generic
/// arguments, is reduced to its last segment.
pub fn compact_function_name(name: &str) -> (r: String)
    ensures
        r@ == compact_of(name@),
{
    let chars = text::chars_of(name);
    let mut output = String::new();
    let mut start: usize = 0;
    let mut i: usize = 0;
    assert(chars@.skip(0) =~= chars@);
    assert(output@ + compact_runs(chars@) =~= compact_runs(chars@));
    while i < chars.len()
        invariant
            start <= i <= chars@.len(),
            chars@ == name@,
            forall|k: int| start <= k < i ==> path_char(#[trigger] chars@[k]),
            output@ + compact_runs(chars@.skip(start as int)) == compact_runs(chars@),
        decreases chars@.len() - i,
    {
        if !is_path_char(chars[i]) {
            let token = text::slice_chars(&chars, start, i);
            let ghost before = output@;
            push_compact_token(&mut output, &token);
            output.push(chars[i]);
            proof {
                let rest = chars@.skip(start as int);
                assert forall|k: int| 0 <= k < i - start implies path_char(rest[k]) by {
                    assert(chars@[start + k] == rest[k]);
                }
                lemma_run_exact(rest, i - start);
                assert(rest.take(i - start) =~= token@);
                assert(rest.skip(i - start + 1) =~= chars@.skip(i + 1));
                assert(output@ + compact_runs(chars@.skip(i + 1)) =~= before + (compact_token(
                    token@,
                ) + seq![rest[i - start]] + compact_runs(chars@.skip(i + 1))));
            }
            start = i + 1;
        }
        i += 1;
    }
    let token = text::slice_chars(&chars, start, chars.len());
    push_compact_token(&mut output, &token);
    proof {
        let rest = chars@.skip(start as int);
        assert forall|k: int| 0 <= k < rest.len() implies path_char(rest[k]) by {
            assert(chars@[start + k] == rest[k]);
        }
        lemma_run_exact(rest, rest.len() as int);
        assert(rest =~= token@);
    }
    if output.as_str().as_bytes().len() < name.as_bytes().len() {
        output
    } else {
        name.to_string()
    }
}

/// Whether a text is `0x` followed by hexadecimal digits.
pub open spec fn hex_symbol(s: Seq<char>) -> bool {
    s.len() > 2 && s[0] == '0' && s[1] == 'x' && forall|i: int|
        2 <= i < s.len() ==> text::ascii_hex_digit(#[trigger] s[i])
}

/// Whether a text is `0x` followed by hexadecimal digits.
fn looks_like_hex_symbol(value: &str) -> (r: bool)
    ensures
        r == hex_symbol(value@),
{
    let chars = text::chars_of(value);
    if chars.len() <= 2 || chars[0] != '0' || chars[1] != 'x' {
        return false;
    }
    let mut i: usize = 2;
    while i < chars.len()
        invariant
            2 <= i <= chars@.len(),
            chars@ == value@,
            forall|k: int| 2 <= k < i ==> text::ascii_hex_digit(#[trigger] chars@[k]),
        decreases chars@.len() - i,
    {
        if !text::is_hex_digit(chars[i]) {
            return false;
        }
        i += 1;
    }
    true
}

/// Whether a lowercase function name belongs to the language runtime or to a
/// benchmark framework.
pub open spec fn framework_name(lower: Seq<char>) -> bool {
    ||| text::begins_with(lower, "std::"@)
    ||| text::begins_with(lower, "core::"@)
    ||| text::begins_with(lower, "alloc::"@)
    ||| text::begins_with(lower, "criterion::"@)
    ||| text::begins_with(lower, "<criterion::"@)
    ||| text::has_text(lower, "::criterion::"@)
    ||| lower == "start"@
    ||| lower == "_libc_start_main"@
    ||| text::has_text(lower, "__rust_begin_short_backtrace"@)
    ||| text::begins_with(lower, "fun_"@)
    ||| hex_symbol(lower)
}

/// Whether a lowercase library name is a system library.
pub open spec fn framework_library(lower: Seq<char>) -> bool {
    ||| text::has_text(lower, "libc.so"@)
    ||| text::has_text(lower, "ld-linux"@)
    ||| text::has_text(lower, "libpthread"@)
    ||| text::has_text(lower, "libgcc_s"@)
}

/// Whether a function is framework code, by its name or by its library.
pub open spec fn framework_function(name: Seq<char>, library: Option<Seq<char>>) -> bool {
    framework_name(text::unicode_lowercase(name)) || (library matches Some(l)
        && framework_library(text::unicode_lowercase(l)))
}

/// Whether a lowercase function name is framework code.
pub fn is_framework_name(lower: &str) -> (r: bool)
    ensures
        r == framework_name(lower@),
{
    text::starts_with_text(lower, "std::") || text::starts_with_text(lower, "core::")
        || text::starts_with_text(lower, "alloc::") || text::starts_with_text(lower, "criterion::")
        || text::starts_with_text(lower, "<criterion::") || text::contains_text(
        lower,
        "::criterion::",
    ) || text::text_eq(lower, "start") || text::text_eq(lower, "_libc_start_main")
        || text::contains_text(lower, "__rust_begin_short_backtrace") || text::starts_with_text(
        lower,
        "fun_",
    ) || looks_like_hex_symbol(lower)
}

/// Whether a lowercase library name is a system library.
pub fn is_framework_library(lower: &str) -> (r: bool)
    ensures
        r == framework_library(lower@),
{
    text::contains_text(lower, "libc.so") || text::contains_text(lower, "ld-linux")
        || text::contains_text(lower, "libpthread") || text::contains_text(lower, "libgcc_s")
}

/// Whether a function is framework code, by its name or by its library. Case
/// does not matter.
pub fn is_framework_function(name: &str, library: Option<&str>) -> (r: bool)
    ensures
        r == framework_function(name@, text::opt_str(library)),
        is_ascii_chars(name@) && library is None ==> r == framework_name(text::ascii_lower(name@)),
{
    let lower = text::to_lowercase(name);
    if is_framework_name(lower.as_str()) {
        return true;
    }
    match library {
        Some(library) => {
            let lib = text::to_lowercase(library);
            is_framework_library(lib.as_str())
        },
        None => false,
    }
}

/// The short form of a name is never longer than the name, a short form of the
/// same length is the name, and a short form has itself as its short form.
pub proof fn law_compact_is_settled(name: Seq<char>)
    ensures
        encode_utf8(compact_of(name)).len() <= encode_utf8(name).len(),
        encode_utf8(compact_of(name)).len() == encode_utf8(name).len() ==> compact_of(name) == name,
        compact_of(compact_of(name)) == compact_of(name),
{
    lemma_runs_settle(name);
}

spec fn path_chars(s: Seq<char>) -> bool {
    forall|i: int| 0 <= i < s.len() ==> path_char(#[trigger] s[i])
}

proof fn lemma_pieces(s: Seq<char>, separator: Seq<char>)
    requires
        separator.len() > 0,
    ensures
        text::pieces(s, separator).len() > 0,
        forall|k: int|
            #![trigger text::pieces(s, separator)[k]]
            0 <= k < text::pieces(s, separator).len() ==> !text::has_text(
                text::pieces(s, separator)[k],
                separator,
            ) && (path_chars(s) ==> path_chars(text::pieces(s, separator)[k])),
    decreases s.len(),
{
    text::lemma_find_from(s, separator, 0);
    let all = text::pieces(s, separator);
    match text::find_from(s, separator, 0) {
        Some(i) => {
            let rest = s.skip(i + separator.len());
            lemma_pieces(rest, separator);
            let first = s.take(i);
            assert(!text::has_text(first, separator)) by {
                assert forall|j: int| !text::occurs_at(first, separator, j) by {
                    if text::occurs_at(first, separator, j) {
                        assert(s.subrange(j, j + separator.len()) =~= first.subrange(
                            j,
                            j + separator.len(),
                        ));
                        assert(text::occurs_at(s, separator, j));
                    }
                }
            }
            if path_chars(s) {
                assert forall|k: int| 0 <= k < first.len() implies path_char(
                    #[trigger] first[k],
                ) by {
                    assert(first[k] == s[k]);
                }
                assert forall|k: int| 0 <= k < rest.len() implies path_char(#[trigger] rest[k]) by {
                    assert(rest[k] == s[k + i + separator.len() as int]);
                }
            }
            assert forall|k: int|
                #![trigger all[k]]
                0 <= k < all.len() implies !text::has_text(all[k], separator) && (path_chars(s)
                ==> path_chars(all[k])) by {
                if k == 0 {
                    assert(all[0] == first);
                } else {
                    assert(all[k] == text::pieces(rest, separator)[k - 1]);
                }
            }
        },
        None => {
            assert(all[0] == s);
        },
    }
}

proof fn lemma_last_filled(segments: Seq<Seq<char>>, n: int)
    requires
        0 <= n <= segments.len(),
    ensures
        last_filled(segments, n) matches Some(x) ==> x.len() > 0 && exists|k: int|
            0 <= k < n && segments[k] == x,
    decreases n,
{
    if n > 0 {
        lemma_last_filled(segments, n - 1);
        assert(segments[n - 1] == segments[n - 1]);
    }
}

proof fn lemma_filled_after_gap(segments: Seq<Seq<char>>, n: int)
    requires
        0 <= n <= segments.len(),
    ensures
        last_filled(seq![Seq::<char>::empty()] + segments, n + 1) == last_filled(segments, n),
    decreases n,
{
    let longer = seq![Seq::<char>::empty()] + segments;
    if n > 0 {
        lemma_filled_after_gap(segments, n - 1);
        assert(longer[n] == segments[n - 1]);
    } else {
        reveal_with_fuel(last_filled, 2);
        assert(longer[0] == Seq::<char>::empty());
    }
}

proof fn lemma_rooted(s: Seq<char>)
    ensures
        text::begins_with("::"@ + s, "::"@),
        text::has_text("::"@ + s, "::"@),
        text::pieces("::"@ + s, "::"@) == seq![Seq::<char>::empty()] + text::pieces(s, "::"@),
{
    reveal_strlit("::");
    let rooted = "::"@ + s;
    assert(rooted.subrange(0, 2) =~= "::"@);
    assert(text::occurs_at(rooted, "::"@, 0));
    assert(text::find_from(rooted, "::"@, 0) == Some(0int));
    assert(rooted.take(0) =~= Seq::<char>::empty());
    assert(rooted.skip(2) =~= s);
}

proof fn lemma_token_settles(token: Seq<char>)
    requires
        path_chars(token),
    ensures
        path_chars(compact_token(token)),
        compact_token(compact_token(token)) == compact_token(token) || compact_token(
            compact_token(token),
        ) == "::"@ + compact_token(token),
{
    reveal_strlit("::");
    let u = compact_token(token);
    if text::has_text(token, "::"@) {
        let segments = text::pieces(token, "::"@);
        let n = segments.len() as int;
        lemma_pieces(token, "::"@);
        lemma_last_filled(segments, n);
        match last_filled(segments, n) {
            Some(last) => {
                let k = choose|k: int| 0 <= k < n && segments[k] == last;
                assert(!text::has_text(segments[k], "::"@) && path_chars(segments[k]));
                if text::begins_with(token, "::"@) {
                    lemma_rooted(last);
                    text::lemma_find_from(last, "::"@, 0);
                    assert(text::pieces(last, "::"@) == seq![last]);
                    lemma_filled_after_gap(seq![last], 1);
                    reveal_with_fuel(last_filled, 2);
                    assert(compact_token(u) == u);
                }
            },
            None => {
                if text::begins_with(token, "::"@) {
                    lemma_rooted(token);
                    lemma_filled_after_gap(segments, n);
                    assert(compact_token(u) == "::"@ + u);
                }
            },
        }
    }
}

proof fn lemma_encoded(a: Seq<char>, b: Seq<char>)
    ensures
        encode_utf8(a + b).len() == encode_utf8(a).len() + encode_utf8(b).len(),
    decreases a.len(),
{
    if a.len() == 0 {
        assert(a + b =~= b);
    } else {
        lemma_encoded(a.drop_first(), b);
        assert((a + b).drop_first() =~= a.drop_first() + b);
    }
}

proof fn lemma_runs_settle(s: Seq<char>)
    ensures
        encode_utf8(compact_runs(compact_runs(s))).len() >= encode_utf8(compact_runs(s)).len(),
    decreases s.len(),
{
    let n = run_len(s) as int;
    lemma_run_len(s);
    let token = s.take(n);
    assert forall|i: int| 0 <= i < token.len() implies path_char(#[trigger] token[i]) by {
        assert(token[i] == s[i]);
    }
    lemma_token_settles(token);
    let u = compact_token(token);
    lemma_encoded("::"@, u);
    if n >= s.len() {
        assert(token =~= s);
        lemma_run_exact(u, u.len() as int);
    } else {
        let rest = s.skip(n + 1);
        lemma_runs_settle(rest);
        let short = compact_runs(s);
        let tail = compact_runs(rest);
        assert(short == u + seq![s[n]] + tail);
        assert forall|i: int| 0 <= i < u.len() implies path_char(short[i]) by {
            assert(short[i] == u[i]);
        }
        assert(short[u.len() as int] == s[n]);
        lemma_run_exact(short, u.len() as int);
        assert(short.take(u.len() as int) =~= u);
        assert(short.skip((u.len() + 1) as int) =~= tail);
        lemma_encoded(u + seq![s[n]], tail);
        lemma_encoded(u, seq![s[n]]);
        lemma_encoded(compact_token(u) + seq![s[n]], compact_runs(tail));
        lemma_encoded(compact_token(u), seq![s[n]]);
    }
}

/// Names of the language runtime, of a benchmark framework, of the program's
/// start and of unknown code are framework code, whatever follows them, and no
/// other name is.
pub proof fn law_framework_names(rest: Seq<char>, before: Seq<char>)
    ensures
        framework_name("std::"@ + rest),
        framework_name("core::"@ + rest),
        framework_name("alloc::"@ + rest),
        framework_name("criterion::"@ + rest),
        framework_name("<criterion::"@ + rest),
        framework_name("fun_"@ + rest),
        framework_name(before + "::criterion::"@ + rest),
        framework_name(before + "__rust_begin_short_backtrace"@ + rest),
        framework_name("start"@),
        framework_name("_libc_start_main"@),
        framework_library(before + "libc.so"@ + rest),
        framework_library(before + "ld-linux"@ + rest),
        framework_library(before + "libpthread"@ + rest),
        framework_library(before + "libgcc_s"@ + rest),
        framework_name(rest) ==> text::begins_with(rest, "std::"@) || text::begins_with(
            rest,
            "core::"@,
        ) || text::begins_with(rest, "alloc::"@) || text::begins_with(rest, "criterion::"@)
            || text::begins_with(rest, "<criterion::"@) || text::begins_with(rest, "fun_"@)
            || text::has_text(rest, "::criterion::"@) || text::has_text(
            rest,
            "__rust_begin_short_backtrace"@,
        ) || rest == "start"@ || rest == "_libc_start_main"@ || (rest.len() > 2 && rest[0] == '0'
            && rest[1] == 'x' && forall|i: int|
            2 <= i < rest.len() ==> text::ascii_hex_digit(#[trigger] rest[i])),
{
    lemma_begins("std::"@, rest);
    lemma_begins("core::"@, rest);
    lemma_begins("alloc::"@, rest);
    lemma_begins("criterion::"@, rest);
    lemma_begins("<criterion::"@, rest);
    lemma_begins("fun_"@, rest);
    lemma_has(before, "::criterion::"@, rest);
    lemma_has(before, "__rust_begin_short_backtrace"@, rest);
    lemma_has(before, "libc.so"@, rest);
    lemma_has(before, "ld-linux"@, rest);
    lemma_has(before, "libpthread"@, rest);
    lemma_has(before, "libgcc_s"@, rest);
}

proof fn lemma_begins(start: Seq<char>, rest: Seq<char>)
    ensures
        text::begins_with(start + rest, start),
{
    assert((start + rest).subrange(0, start.len() as int) =~= start);
}

proof fn lemma_has(before: Seq<char>, part: Seq<char>, rest: Seq<char>)
    ensures
        text::has_text(before + part + rest, part),
{
    let s = before + part + rest;
    let n = before.len() as int;
    assert(s.subrange(n, n + part.len()) =~= part);
    assert(text::occurs_at(s, part, n));
}

/// A path is shortened to one of its segments: what stands behind the last
/// separator that something follows. A leading separator stays, and what has no
/// separator stays as it is.
pub proof fn law_paths_keep_their_last_segment(token: Seq<char>)
    ensures
        !text::has_text(token, "::"@) ==> compact_token(token) == token,
        ({
            let segments = text::pieces(token, "::"@);
            forall|i: int|
                #![trigger segments[i]]
                text::has_text(token, "::"@) && 0 <= i < segments.len() && segments[i].len() > 0 && (
                forall|k: int| i < k < segments.len() ==> (#[trigger] segments[k]).len() == 0)
                    ==> compact_token(token) == if text::begins_with(token, "::"@) {
                    "::"@ + segments[i]
                } else {
                    segments[i]
                }
        }),
{
    let segments = text::pieces(token, "::"@);
    lemma_last_is_filled(segments, segments.len() as int);
}

proof fn lemma_last_is_filled(segments: Seq<Seq<char>>, n: int)
    requires
        0 <= n <= segments.len(),
    ensures
        forall|i: int|
            #![trigger segments[i]]
            0 <= i < n && segments[i].len() > 0 && (forall|k: int|
                i < k < n ==> (#[trigger] segments[k]).len() == 0) ==> last_filled(segments, n)
                == Some(segments[i]),
    decreases n,
{
    if n > 0 {
        lemma_last_is_filled(segments, n - 1);
        assert forall|i: int|
            #![trigger segments[i]]
            0 <= i < n && segments[i].len() > 0 && (forall|k: int|
                i < k < n ==> (#[trigger] segments[k]).len() == 0) implies last_filled(segments, n)
            == Some(segments[i]) by {
            if i < n - 1 {
                assert(segments[n - 1].len() == 0);
            }
        }
    }
}

proof fn lemma_same_digits(a: nat, b: nat, width: nat)
    requires
        text::padded_hex(a, width) == text::padded_hex(b, width),
        a < room(width),
        b < room(width),
    ensures
        a == b,
    decreases width,
{
    if width > 0 {
        text::law_padded_digits(a, b, width);
        lemma_same_digits(a / 16, b / 16, (width - 1) as nat);
    }
}

spec fn room(width: nat) -> nat
    decreases width,
{
    if width == 0 {
        1
    } else {
        16 * room((width - 1) as nat)
    }
}

/// The identifier of a function is the same for the same name, and two names
/// share one only where their hashes are the same.
pub proof fn law_identifiers_are_hashes(a: Seq<char>, b: Seq<char>)
    ensures
        id_of(a) == id_of(b) <==> fnv::of_text(a) == fnv::of_text(b),
        id_of(a).len() == 19,
        id_of(a).take(3) == "fn:"@,
{
    reveal_strlit("fn:");
    let x = text::padded_hex(fnv::of_text(a) as nat, 16);
    let y = text::padded_hex(fnv::of_text(b) as nat, 16);
    text::law_padded_digits(fnv::of_text(a) as nat, fnv::of_text(b) as nat, 16);
    assert(id_of(a).take(3) =~= "fn:"@);
    assert(id_of(a).skip(3) =~= x);
    assert(id_of(b).skip(3) =~= y);
    if x == y {
        reveal_with_fuel(room, 17);
        lemma_same_digits(fnv::of_text(a) as nat, fnv::of_text(b) as nat, 16);
    }
}

}
