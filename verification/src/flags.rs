//! Reading a set of segment flags from its letters.

use crate::elf::program::Flags;
use vstd::prelude::*;
use vstd::string::{StrSliceExecFns, StringExecFns};

verus! {

/// The flag that a letter names: `r` for readable, `w` for writable, `x` for
/// executable, in either case. Other characters name none.
pub open spec fn flag_of(c: char) -> Option<u32> {
    if c == 'r' || c == 'R' {
        Some(Flags::PF_R)
    } else if c == 'w' || c == 'W' {
        Some(Flags::PF_W)
    } else if c == 'x' || c == 'X' {
        Some(Flags::PF_X)
    } else {
        None
    }
}

/// Whether one of the letters names the flag `bit`.
pub open spec fn names(letters: Seq<char>, bit: u32) -> bool {
    exists|i: int| 0 <= i < letters.len() && flag_of(#[trigger] letters[i]) == Some(bit)
}

/// The flags that the letters name, as a mask.
pub open spec fn mask_of(letters: Seq<char>) -> int {
    (if names(letters, Flags::PF_R) {
        4int
    } else {
        0
    }) + (if names(letters, Flags::PF_W) {
        2int
    } else {
        0
    }) + (if names(letters, Flags::PF_X) {
        1int
    } else {
        0
    })
}

/// Whether the letter at place `i` cannot be taken: it names no flag, or it
/// names one that a letter before it has named.
pub open spec fn offends(letters: Seq<char>, i: int) -> bool {
    &&& 0 <= i < letters.len()
    &&& match flag_of(letters[i]) {
        Some(bit) => names(letters.take(i), bit),
        None => true,
    }
}

/// Whether the letter at place `i` is the first that cannot be taken.
pub open spec fn stops_at(letters: Seq<char>, i: int) -> bool {
    &&& offends(letters, i)
    &&& forall|j: int| 0 <= j < i ==> !#[trigger] offends(letters, j)
}

/// The lower-case letter of the flag that `c` names.
pub open spec fn letter_of(c: char) -> char {
    if c == 'R' {
        'r'
    } else if c == 'W' {
        'w'
    } else if c == 'X' {
        'x'
    } else {
        c
    }
}

/// What is said of a letter that cannot be taken.
pub open spec fn complaint(c: char) -> Seq<char> {
    if flag_of(c) is None {
        "Unknown flag '"@.push(c) + "'"@
    } else {
        "Duplicate flag '"@.push(letter_of(c)) + "'"@
    }
}

/// Calls `String::push`. Trusted: the text afterwards is the text before
/// with the character added at its end.
#[verifier::external_body]
fn push_char(text: &mut String, c: char)
    ensures
        final(text)@ == old(text)@.push(c),
{
    text.push(c)
}

/// Builds the text `head`, then the character `c`, then a closing quote.
fn quoted(head: &str, c: char) -> (text: String)
    ensures
        text@ == head@.push(c) + "'"@,
{
    let mut text = String::from_str(head);
    push_char(&mut text, c);
    text.append("'");
    text
}

/// The letters up to and with the one at place `i` name what those before
/// it name, and what it names itself.
proof fn lemma_names_grow(letters: Seq<char>, i: int, bit: u32)
    requires
        0 <= i < letters.len(),
    ensures
        names(letters.take(i + 1), bit) <==> names(letters.take(i), bit) || flag_of(letters[i])
            == Some(bit),
{
    let shorter = letters.take(i);
    let longer = letters.take(i + 1);
    if names(shorter, bit) {
        let k = choose|k: int| 0 <= k < shorter.len() && flag_of(#[trigger] shorter[k]) == Some(bit);
        assert(longer[k] == shorter[k]);
    }
    if flag_of(letters[i]) == Some(bit) {
        assert(longer[i] == letters[i]);
    }
    if names(longer, bit) {
        let k = choose|k: int| 0 <= k < longer.len() && flag_of(#[trigger] longer[k]) == Some(bit);
        if k < i {
            assert(shorter[k] == longer[k]);
        }
    }
}

/// Reads a set of flags from its letters, each of `r`, `w` and `x` at most
/// once, in any order and either case. The first letter that names no flag,
/// or one that was named before, ends the reading with a complaint about it.
pub fn parse_flags(s: &str) -> (r: Result<u32, String>)
    ensures
        match r {
            Ok(flags) => {
                &&& forall|i: int| 0 <= i < s@.len() ==> !#[trigger] offends(s@, i)
                &&& flags == mask_of(s@)
            },
            Err(text) => exists|i: int| #[trigger] stops_at(s@, i) && text@ == complaint(s@[i]),
        },
{
    let len = s.unicode_len();
    let mut flags: u32 = 0;
    let mut i: usize = 0;
    while i < len
        invariant
            len == s@.len(),
            i <= len,
            flags < 8,
            flags == mask_of(s@.take(i as int)),
            forall|j: int| 0 <= j < i ==> !#[trigger] offends(s@, j),
        decreases len - i,
    {
        let c = s.get_char(i);
        let val: u32 = if c == 'r' || c == 'R' {
            Flags::PF_R
        } else if c == 'w' || c == 'W' {
            Flags::PF_W
        } else if c == 'x' || c == 'X' {
            Flags::PF_X
        } else {
            assert(stops_at(s@, i as int));
            return Err(quoted("Unknown flag '", c));
        };
        proof {
            lemma_names_grow(s@, i as int, Flags::PF_R);
            lemma_names_grow(s@, i as int, Flags::PF_W);
            lemma_names_grow(s@, i as int, Flags::PF_X);
            assert(flags & val != 0 <==> names(s@.take(i as int), val)) by {
                assert(flags < 8 ==> flags == (flags & 4) + (flags & 2) + (flags & 1) && (flags & 4
                    == 0 || flags & 4 == 4) && (flags & 2 == 0 || flags & 2 == 2) && (flags & 1 == 0
                    || flags & 1 == 1)) by (bit_vector);
            }
            assert(flags < 8 && flags & val == 0 && (val == 1 || val == 2 || val == 4) ==> flags
                | val == flags + val && flags | val < 8) by (bit_vector);
        }
        if flags & val != 0 {
            assert(stops_at(s@, i as int));
            let letter = if val == Flags::PF_R {
                'r'
            } else if val == Flags::PF_W {
                'w'
            } else {
                'x'
            };
            return Err(quoted("Duplicate flag '", letter));
        } else {
            flags = flags | val;
        }
        i = i + 1;
    }
    assert(s@.take(i as int) =~= s@);
    Ok(flags)
}

} // verus!
