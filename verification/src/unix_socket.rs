//! Serving requests at a Unix socket: what is done in which order, and how it ends.

use vstd::prelude::*;

use crate::text::decimal;

pub mod fini;
pub mod init;
pub mod serve;

verus! {

/// The value of `text` read as an octal number, where all of it is octal digits.
pub open spec fn octal_reading(text: Seq<char>) -> Option<int>
    decreases text.len(),
{
    if text.len() == 0 {
        Some(0)
    } else if !('0' <= text.last() <= '7') {
        None
    } else {
        match octal_reading(text.drop_last()) {
            Some(higher) => Some(8 * higher + (text.last() as int - '0' as int)),
            None => None,
        }
    }
}

/// The last decimal digit of a number is the last octal digit of its octal reading.
proof fn octal_reading_of_decimal(n: nat)
    ensures
        octal_reading(decimal(n)) == if n % 10 >= 8 {
            None
        } else if n < 10 {
            Some(n as int)
        } else {
            match octal_reading(decimal(n / 10)) {
                Some(higher) => Some(8 * higher + n % 10),
                None => None,
            }
        },
{
    let last = ('0' as int + n % 10) as char;
    assert(last as int == '0' as int + n % 10);
    if n < 10 {
        assert(decimal(n) =~= seq![last]);
        assert(decimal(n).drop_last() =~= Seq::<char>::empty());
        assert(octal_reading(Seq::<char>::empty()) == Some(0int));
    } else {
        assert(decimal(n).drop_last() =~= decimal(n / 10));
        assert(decimal(n).last() == last);
    }
}

/// The octal reading of a number's decimal digits is not larger than the number.
pub proof fn octal_reading_is_smaller(n: nat)
    ensures
        octal_reading(decimal(n)) matches Some(value) ==> 0 <= value <= n,
    decreases n,
{
    octal_reading_of_decimal(n);
    if n >= 10 {
        octal_reading_is_smaller(n / 10);
    }
}

/// The permissions that the decimal digits of `perms` spell in octal, such as `0o660` for 660;
/// `None` where one of the digits is not an octal digit.
pub fn octal_permissions(perms: u32) -> (r: Option<u32>)
    ensures
        r is Some <==> octal_reading(decimal(perms as nat)) is Some,
        r matches Some(mode) ==> octal_reading(decimal(perms as nat)) == Some(mode as int),
    decreases perms,
{
    let digit: u32 = perms % 10;
    proof {
        octal_reading_of_decimal(perms as nat);
        octal_reading_is_smaller((perms / 10) as nat);
    }
    if digit >= 8 {
        None
    } else if perms < 10 {
        Some(digit)
    } else {
        match octal_permissions(perms / 10) {
            Some(higher) => Some(8 * higher + digit),
            None => None,
        }
    }
}

/// Different numbers spell different permissions.
pub proof fn octal_reading_tells_numbers_apart(a: nat, b: nat)
    requires
        octal_reading(decimal(a)) is Some,
        octal_reading(decimal(a)) == octal_reading(decimal(b)),
    ensures
        a == b,
    decreases a + b,
{
    octal_reading_of_decimal(a);
    octal_reading_of_decimal(b);
    if a >= 10 {
        octal_reading_is_positive(a / 10);
    }
    if b >= 10 {
        octal_reading_is_positive(b / 10);
    }
    if a >= 10 && b >= 10 {
        octal_reading_tells_numbers_apart(a / 10, b / 10);
    }
}

/// Only zero spells zero.
proof fn octal_reading_is_positive(n: nat)
    requires
        n > 0,
    ensures
        octal_reading(decimal(n)) matches Some(value) ==> value > 0,
    decreases n,
{
    octal_reading_of_decimal(n);
    if n >= 10 {
        octal_reading_is_positive(n / 10);
    }
}

/// `name` names a file, as itself and not by dots or further directories.
pub open spec fn is_plain_name(name: Seq<char>) -> bool {
    name.len() > 0 && !name.contains('/') && name.last() != '.'
}

/// The path of the file `name` in `directory`.
pub open spec fn in_directory(directory: Seq<char>, name: Seq<char>) -> Seq<char> {
    directory + seq!['/'] + name
}

/// What `std::path::Path::parent` gives for a Unix path.
pub uninterp spec fn path_parent(path: Seq<char>) -> Option<Seq<char>>;

/// Calls `std::path::Path::parent`. Claimed of it: what it gives depends on the path alone, the
/// path being a Unix path as everywhere in this module; the empty path and the root have no
/// parent; a plain name has the empty path for its parent, a plain name in the root has the root,
/// and a plain name in another directory has that directory.
#[verifier::external_body]
fn parent_of(path: &str) -> (r: Option<String>)
    ensures
        r.deep_view() == path_parent(path@),
        path@.len() == 0 ==> r is None,
        path@ == seq!['/'] ==> r is None,
        is_plain_name(path@) ==> r.deep_view() == Some(Seq::<char>::empty()),
        forall|directory: Seq<char>, name: Seq<char>|
            path@ == #[trigger] in_directory(directory, name) && is_plain_name(name) ==> {
                &&& directory.len() == 0 ==> r.deep_view() == Some(seq!['/'])
                &&& directory.len() > 0 && directory.last() != '/' && directory.last() != '.'
                    ==> r.deep_view() == Some(directory)
            },
{
    std::path::Path::new(path).parent().map(|parent| parent.to_string_lossy().into_owned())
}

/// The directory in which a socket stands whose path has this parent.
pub open spec fn directory(parent: Option<Seq<char>>) -> Seq<char> {
    match parent {
        Some(parent) => parent,
        None => seq!['/'],
    }
}

/// The directory in which a socket stands whose path has this parent: the root where it has none.
pub fn directory_of(parent: Option<String>) -> (r: String)
    ensures
        r@ == directory(parent.deep_view()),
{
    match parent {
        Some(parent) => parent,
        None => {
            proof {
                reveal_strlit("/");
                assert("/"@ =~= seq!['/']);
            }
            "/".to_owned()
        },
    }
}

/// The directory in which the socket at `path` stands.
pub fn socket_directory(path: &str) -> (r: String)
    ensures
        r@ == directory(path_parent(path@)),
        path@.len() == 0 ==> r@ == seq!['/'],
        path@ == seq!['/'] ==> r@ == seq!['/'],
        is_plain_name(path@) ==> r@ == Seq::<char>::empty(),
        forall|directory: Seq<char>, name: Seq<char>|
            path@ == #[trigger] in_directory(directory, name) && is_plain_name(name) ==> {
                &&& directory.len() == 0 ==> r@ == seq!['/']
                &&& directory.len() > 0 && directory.last() != '/' && directory.last() != '.'
                    ==> r@ == directory
            },
{
    directory_of(parent_of(path))
}

/// A text is read as an octal number where all its characters are octal digits, and nowhere else; its
/// value is that of the digits read from left to right.
pub proof fn octal_reading_has_the_value(text: Seq<char>)
    ensures
        octal_reading(text) is Some <==> forall|i: int|
            0 <= i < text.len() ==> '0' <= #[trigger] text[i] <= '7',
        octal_reading(text) matches Some(value) ==> value == text.fold_left(
            0,
            |value: int, digit: char| 8 * value + (digit as int - '0' as int),
        ),
    decreases text.len(),
{
    if text.len() > 0 {
        let fewer = text.drop_last();
        octal_reading_has_the_value(fewer);
        assert(text.last() == text[text.len() - 1]);
        if forall|i: int| 0 <= i < fewer.len() ==> '0' <= #[trigger] fewer[i] <= '7' {
            assert forall|i: int| 0 <= i < fewer.len() implies '0' <= #[trigger] text[i] <= '7' by {
                assert(fewer[i] == text[i]);
            }
        }
        if forall|i: int| 0 <= i < text.len() ==> '0' <= #[trigger] text[i] <= '7' {
            assert forall|i: int| 0 <= i < fewer.len() implies '0' <= #[trigger] fewer[i] <= '7' by {
                assert(fewer[i] == text[i]);
            }
        }
    }
}

/// A socket stands in the parent of its path, and in the root where its path has none.
pub proof fn socket_stands_in_the_parent(parent: Seq<char>)
    ensures
        directory(Some(parent)) == parent,
        directory(None) == "/"@,
{
    reveal_strlit("/");
    assert("/"@ =~= seq!['/']);
}

} // verus!
