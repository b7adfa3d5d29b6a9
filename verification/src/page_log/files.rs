//! The names of the files of pages.
use crate::config;
use crate::page_log::{self, LogPageId};
use crate::path::{self, join_path};
use crate::text::bytes::{self, str_len};
use crate::text::number::{self, decimal_string};
use crate::text::{
    self, chars_all_name_chars, chars_ends_with, chars_of, chars_starts_with, concat, concat3,
};
use vstd::prelude::*;

verus! {

/// How many bytes the name of a file has at most.
pub const MAX_FILE_NAME_LEN: usize = 255;

/// Whether a name is that of a generation of a page's log.
pub open spec fn is_generation(id: Seq<char>, name: Seq<char>) -> bool {
    &&& 0 < name.len()
    &&& bytes::byte_len(name) <= MAX_FILE_NAME_LEN
    &&& text::ends_with(name, ".log"@)
    &&& text::starts_with(name, id + "."@)
    &&& text::all_name_chars(name)
}

/// The name of a generation of a page's log.
pub open spec fn generation(id: Seq<char>, pid: nat, nanos: nat, sequence: nat) -> Seq<char> {
    id + "."@ + number::decimal(pid) + "."@ + number::decimal(nanos) + "."@ + number::decimal(
        sequence,
    ) + ".log"@
}

/// The directory where pages are kept.
pub open spec fn state_dir(
    xdg_state_home: Option<Seq<char>>,
    home: Option<Seq<char>>,
    temp_dir: Seq<char>,
) -> Seq<char> {
    match (config::non_empty(xdg_state_home), config::non_empty(home)) {
        (Some(state_home), _) => path::joined(state_home, "loggle"@),
        (None, Some(home)) => path::joined(
            path::joined(path::joined(home, ".local"@), "state"@),
            "loggle"@,
        ),
        (None, None) => path::joined(temp_dir, "loggle"@),
    }
}

/// The directory where pages are kept, by what `XDG_STATE_HOME` and `HOME` are
/// set to: below the first that is set, else among the temporary files.
pub fn loggle_state_dir(
    xdg_state_home: &Option<String>,
    home: &Option<String>,
    temp_dir: &str,
) -> (result: String)
    ensures
        result@ == state_dir(text::opt_view(*xdg_state_home), text::opt_view(*home), temp_dir@),
{
    match xdg_state_home {
        Some(state_home) => {
            if !state_home.as_str().is_empty() {
                return join_path(state_home.as_str(), "loggle");
            }
        },
        None => {},
    }
    match home {
        Some(home) => {
            if !home.as_str().is_empty() {
                let local = join_path(home.as_str(), ".local");
                let state = join_path(local.as_str(), "state");
                return join_path(state.as_str(), "loggle");
            }
        },
        None => {},
    }
    join_path(temp_dir, "loggle")
}

/// The directory of the logs of pages.
pub fn log_page_dir(state_dir: &str) -> (result: String)
    ensures
        result@ == path::joined(state_dir@, "pages"@),
{
    join_path(state_dir, "pages")
}

/// The directory of the files that tell of active pages.
pub fn log_page_registry_dir(state_dir: &str) -> (result: String)
    ensures
        result@ == path::joined(state_dir@, "active-pages"@),
{
    join_path(state_dir, "active-pages")
}

/// The name of the log of a page that has no generations.
pub fn legacy_log_file_name(id: &LogPageId) -> (result: String)
    ensures
        result@ == id@ + ".log"@,
{
    concat(id.as_str(), ".log")
}

/// The name of the file that tells of an active page.
pub fn active_log_page_file_name(id: &LogPageId) -> (result: String)
    ensures
        result@ == id@ + ".json"@,
{
    concat(id.as_str(), ".json")
}

/// Whether a name can be that of a file that tells of an active page: it has the
/// extension of such a file, and something before it.
pub fn is_active_log_page_file_name(file_name: &str) -> (result: bool)
    ensures
        result == (text::ends_with(file_name@, ".json"@) && file_name@.len() > ".json"@.len()),
{
    let chars = chars_of(file_name);
    proof {
        reveal_strlit(".json");
    }
    chars_ends_with(chars.as_slice(), ".json") && chars.len() > 5
}

/// The name of the file that is locked while a page is active.
pub fn active_log_page_lock_file_name(id: &LogPageId) -> (result: String)
    ensures
        result@ == id@ + ".lock"@,
{
    concat(id.as_str(), ".lock")
}

/// Whether a name is that of a generation of a page's log. Such a name leads to
/// no other directory.
pub fn is_generation_log_file_name(id: &LogPageId, file_name: &str) -> (result: bool)
    ensures
        result == is_generation(id@, file_name@),
{
    let chars = chars_of(file_name);
    let prefix = concat(id.as_str(), ".");
    chars.len() > 0 && str_len(file_name) <= MAX_FILE_NAME_LEN && chars_ends_with(
        chars.as_slice(),
        ".log",
    ) && chars_starts_with(chars.as_slice(), prefix.as_str()) && chars_all_name_chars(
        chars.as_slice(),
    )
}

/// A name for the next generation of a page's log.
pub fn generation_log_file_name(id: &LogPageId, pid: u32, nanos: u128, sequence: u64) -> (result:
    String)
    ensures
        result@ == generation(id@, pid as nat, nanos as nat, sequence as nat),
{
    let pid = decimal_string(pid as u128);
    let nanos = decimal_string(nanos);
    let sequence = decimal_string(sequence as u128);
    let name = concat3(id.as_str(), ".", pid.as_str());
    let name = concat3(name.as_str(), ".", nanos.as_str());
    let name = concat3(name.as_str(), ".", sequence.as_str());
    concat(name.as_str(), ".log")
}

/// A name for a file that is written before it takes the place of another.
pub fn metadata_publish_file_name(metadata_name: &str, pid: u32, sequence: u64) -> (result: String)
    ensures
        result@ == "."@ + metadata_name@ + "."@ + number::decimal(pid as nat) + "."@
            + number::decimal(sequence as nat) + ".tmp"@,
{
    let pid = decimal_string(pid as u128);
    let sequence = decimal_string(sequence as u128);
    let name = concat3(".", metadata_name, ".");
    let name = concat3(name.as_str(), pid.as_str(), ".");
    concat3(name.as_str(), sequence.as_str(), ".tmp")
}

// ---------------------------------------------------------------------------
// Laws
// ---------------------------------------------------------------------------

proof fn lemma_names_add(a: Seq<char>, b: Seq<char>)
    requires
        text::all_name_chars(a),
        text::all_name_chars(b),
    ensures
        text::all_name_chars(a + b),
        bytes::byte_len(a + b) == bytes::byte_len(a) + bytes::byte_len(b),
{
    bytes::lemma_byte_len_add(a, b);
    assert forall|i: int| 0 <= i < (a + b).len() implies text::is_name_char(
        #[trigger] (a + b)[i],
    ) by {
        if i < a.len() {
            assert((a + b)[i] == a[i]);
        } else {
            assert((a + b)[i] == b[i - a.len()]);
        }
    }
}

/// A number in decimal can stand in a name, and has at most so many bytes as
/// its bound has digits.
proof fn lemma_decimal_name(n: nat, digits: nat)
    requires
        n < vstd::arithmetic::power::pow(10, digits),
        digits > 0,
    ensures
        text::all_name_chars(number::decimal(n)),
        bytes::byte_len(number::decimal(n)) <= digits,
    decreases n,
{
    if n < 10 {
        lemma_digit_name(n);
        let none = Seq::<char>::empty();
        assert(number::decimal(n) =~= none.push(number::digit_char(n)));
        bytes::lemma_byte_len_push(none, number::digit_char(n));
        bytes::lemma_byte_len_bounds(none);
    } else {
        if digits == 1 {
            vstd::arithmetic::power::lemma_pow1(10);
        }
        let less = (digits - 1) as nat;
        reveal(vstd::arithmetic::power::pow);
        assert(vstd::arithmetic::power::pow(10, digits) == 10 * vstd::arithmetic::power::pow(
            10,
            less,
        ));
        assert(n / 10 < vstd::arithmetic::power::pow(10, less));
        lemma_decimal_name(n / 10, less);
        lemma_digit_name(n % 10);
        bytes::lemma_byte_len_push(number::decimal(n / 10), number::digit_char(n % 10));
    }
}

proof fn lemma_digit_name(n: nat)
    requires
        n < 10,
    ensures
        text::is_name_char(number::digit_char(n)),
        bytes::width(number::digit_char(n)) == 1,
{
}

proof fn lemma_literals()
    ensures
        text::all_name_chars("."@),
        text::all_name_chars(".log"@),
        bytes::byte_len("."@) == 1,
        bytes::byte_len(".log"@) == 4,
        ".log"@.len() == 4,
{
    reveal_strlit(".");
    reveal_strlit(".log");
    let none = Seq::<char>::empty();
    bytes::lemma_byte_len_bounds(none);
    bytes::lemma_byte_len_push(none, '.');
    bytes::lemma_byte_len_push(none.push('.'), 'l');
    bytes::lemma_byte_len_push(none.push('.').push('l'), 'o');
    bytes::lemma_byte_len_push(none.push('.').push('l').push('o'), 'g');
    assert("."@ =~= none.push('.'));
    assert(".log"@ =~= none.push('.').push('l').push('o').push('g'));
}

/// The name of a new generation is one that is taken for a generation of its
/// page.
pub proof fn law_generation_name_is_accepted(
    id: Seq<char>,
    pid: u32,
    nanos: u128,
    sequence: u64,
)
    requires
        page_log::is_id(id),
    ensures
        is_generation(id, generation(id, pid as nat, nanos as nat, sequence as nat)),
{
    lemma_literals();
    lemma_powers();
    let a = number::decimal(pid as nat);
    let b = number::decimal(nanos as nat);
    let c = number::decimal(sequence as nat);
    lemma_decimal_name(pid as nat, 10);
    lemma_decimal_name(nanos as nat, 39);
    lemma_decimal_name(sequence as nat, 20);
    let dot = "."@;
    lemma_names_add(id, dot);
    lemma_names_add(id + dot, a);
    lemma_names_add(id + dot + a, dot);
    lemma_names_add(id + dot + a + dot, b);
    lemma_names_add(id + dot + a + dot + b, dot);
    lemma_names_add(id + dot + a + dot + b + dot, c);
    lemma_names_add(id + dot + a + dot + b + dot + c, ".log"@);
    let name = generation(id, pid as nat, nanos as nat, sequence as nat);
    let front = id + dot + a + dot + b + dot + c;
    assert(name == front + ".log"@);
    assert(name.skip(name.len() - 4) =~= ".log"@);
    assert(name.take((id + dot).len() as int) =~= id + dot);
}

proof fn lemma_powers()
    ensures
        u32::MAX < vstd::arithmetic::power::pow(10, 10),
        u64::MAX < vstd::arithmetic::power::pow(10, 20),
        u128::MAX < vstd::arithmetic::power::pow(10, 39),
{
    reveal(vstd::arithmetic::power::pow);
    reveal_with_fuel(vstd::arithmetic::power::pow, 40);
}

} // verus!
