use vstd::prelude::*;

verus! {

/// The character that erases the last echoed one.
pub const BACKSPACE: char = '\x08';

/// What the screen must show after a key reached the console.
#[derive(Debug, Clone, Copy, PartialEq, Eq, Structural)]
pub enum Echo {
    /// Print the character.
    Print(char),
    /// Erase the last character on the screen.
    Backspace,
    /// Show nothing.
    Nothing,
}

/// The keyboard side of the console: the last key that reached standard
/// input and has not been read yet (`'\0'` once read), and how many echoed
/// characters a backspace may still erase.
pub struct Console {
    current_byte: char,
    allowed_backspaces: u8,
}

/// The state of a console as values.
pub struct ConsoleView {
    /// The key waiting on standard input, `'\0'` when there is none.
    pub pending: char,
    /// How many echoed characters a backspace may still erase.
    pub erasable: u8,
}

impl Console {
    /// The console's state as values.
    pub closed spec fn view(&self) -> ConsoleView {
        ConsoleView { pending: self.current_byte, erasable: self.allowed_backspaces }
    }

    /// How many echoed characters a backspace may still erase.
    pub fn allowed_backspaces(&self) -> (n: u8)
        ensures
            n == self@.erasable,
    {
        self.allowed_backspaces
    }

    /// A console with no key waiting and nothing to erase.
    pub fn new() -> (c: Self)
        ensures
            c@ == (ConsoleView { pending: '\0', erasable: 0 }),
    {
        Console { current_byte: '\0', allowed_backspaces: 0 }
    }
}

/// What the console shows when `byte` arrives.
pub open spec fn echo_of(c: ConsoleView, byte: char) -> Echo {
    if byte != BACKSPACE {
        Echo::Print(byte)
    } else if c.erasable > 0 {
        Echo::Backspace
    } else {
        Echo::Nothing
    }
}

/// The console after `byte` arrived: it is the pending key; a printed
/// character may later be erased, and a backspace uses up one erasable
/// character if there is one.
pub open spec fn key_arrives(c: ConsoleView, byte: char) -> ConsoleView {
    ConsoleView {
        pending: byte,
        erasable: if byte != BACKSPACE {
            (c.erasable + 1) as u8
        } else if c.erasable > 0 {
            (c.erasable - 1) as u8
        } else {
            c.erasable
        },
    }
}

/// Reading standard input: the pending key, and the console with `'\0'`
/// in its place.
pub open spec fn read_key(c: ConsoleView) -> (char, ConsoleView) {
    (c.pending, ConsoleView { pending: '\0', erasable: c.erasable })
}

/// Nothing echoed so far may be erased any more (a program wrote to the
/// screen after it).
pub fn reset_allowed_backspaces(console: &mut Console)
    ensures
        final(console)@ == (ConsoleView { pending: old(console)@.pending, erasable: 0 }),
{
    console.allowed_backspaces = 0;
}

/// A key reached standard input: it becomes the pending key, and the
/// result says how to echo it (see `echo_of` and `key_arrives`).
pub fn set_current_byte_in_stdin(console: &mut Console, byte: char) -> (echo: Echo)
    requires
        byte != BACKSPACE ==> old(console)@.erasable < u8::MAX,
    ensures
        echo == echo_of(old(console)@, byte),
        final(console)@ == key_arrives(old(console)@, byte),
        byte != BACKSPACE ==> echo == Echo::Print(byte) && final(console)@.erasable == old(console)@.erasable + 1,
        byte == BACKSPACE && old(console)@.erasable > 0 ==> echo == Echo::Backspace
            && final(console)@.erasable == old(console)@.erasable - 1,
        byte == BACKSPACE && old(console)@.erasable == 0 ==> echo == Echo::Nothing && final(console)@.erasable == 0,
        final(console)@.pending == byte,
{
    proof {
        law_key_echo(old(console)@, byte);
    }
    let echo = if byte != BACKSPACE {
        console.allowed_backspaces = console.allowed_backspaces + 1;
        Echo::Print(byte)
    } else if console.allowed_backspaces > 0 {
        console.allowed_backspaces = console.allowed_backspaces - 1;
        Echo::Backspace
    } else {
        Echo::Nothing
    };
    console.current_byte = byte;
    echo
}

/// Takes the pending key: it is returned, and `'\0'` is left in its place
/// so that the next read knows it has been consumed.
pub fn get_current_byte_in_stdin(console: &mut Console) -> (byte: char)
    ensures
        (byte, final(console)@) == read_key(old(console)@),
{
    let current_byte = console.current_byte;
    console.current_byte = '\0';
    current_byte
}

/// A key other than a backspace is printed as itself and becomes one more
/// character that a backspace may erase; a backspace erases one character
/// when there is one, else shows nothing; either way the key becomes the
/// pending one.
pub proof fn law_key_echo(c: ConsoleView, byte: char)
    ensures
        byte != BACKSPACE ==> echo_of(c, byte) == Echo::Print(byte),
        byte != BACKSPACE && c.erasable < u8::MAX ==> key_arrives(c, byte).erasable == c.erasable + 1,
        byte == BACKSPACE && c.erasable > 0 ==> echo_of(c, byte) == Echo::Backspace
            && key_arrives(c, byte).erasable == c.erasable - 1,
        byte == BACKSPACE && c.erasable == 0 ==> echo_of(c, byte) == Echo::Nothing && key_arrives(c, byte).erasable == 0,
        key_arrives(c, byte).pending == byte,
{
}

/// A key is read once: the read right after it arrived gives it back, a
/// second read gives `'\0'`, and reading leaves the erasable count alone.
pub proof fn law_key_read_once(c: ConsoleView, byte: char)
    ensures
        read_key(key_arrives(c, byte)).0 == byte,
        read_key(read_key(key_arrives(c, byte)).1).0 == '\0',
        read_key(key_arrives(c, byte)).1.erasable == key_arrives(c, byte).erasable,
{
}

/// A printed character followed by a backspace leaves as much to erase as
/// before, and erases it on screen; a backspace with nothing to erase shows
/// nothing and keeps the count at zero.
pub proof fn law_backspace_undoes_print(c: ConsoleView, byte: char)
    requires
        byte != BACKSPACE,
        c.erasable < u8::MAX,
    ensures
        echo_of(key_arrives(c, byte), BACKSPACE) == Echo::Backspace,
        key_arrives(key_arrives(c, byte), BACKSPACE).erasable == c.erasable,
        c.erasable == 0 ==> echo_of(c, BACKSPACE) == Echo::Nothing,
        c.erasable == 0 ==> key_arrives(c, BACKSPACE).erasable == 0,
{
}


/// The console after a sequence of keys arrived, in order.
pub open spec fn keys_arrive(c: ConsoleView, keys: Seq<char>) -> ConsoleView
    decreases keys.len(),
{
    if keys.len() == 0 {
        c
    } else {
        key_arrives(keys_arrive(c, keys.drop_last()), keys.last())
    }
}

/// How many of the keys were printed (all but the backspaces).
pub open spec fn printed(keys: Seq<char>) -> nat
    decreases keys.len(),
{
    if keys.len() == 0 {
        0
    } else {
        printed(keys.drop_last()) + if keys.last() != BACKSPACE {
            1nat
        } else {
            0nat
        }
    }
}

/// How many of the keys, arriving at `c`, erased a character on screen.
pub open spec fn erased(c: ConsoleView, keys: Seq<char>) -> nat
    decreases keys.len(),
{
    if keys.len() == 0 {
        0
    } else {
        erased(c, keys.drop_last()) + if echo_of(keys_arrive(c, keys.drop_last()), keys.last()) == Echo::Backspace {
            1nat
        } else {
            0nat
        }
    }
}

/// After the erasable count was reset, and while fewer than 256 characters
/// were printed, backspaces never erase more than was printed since: the
/// count is always the printed characters less the erased ones, and every
/// key can be taken without overflowing it.
pub proof fn law_backspaces_erase_only_new_output(c: ConsoleView, keys: Seq<char>)
    requires
        c.erasable == 0,
        printed(keys) <= 255,
    ensures
        erased(c, keys) <= printed(keys),
        keys_arrive(c, keys).erasable == printed(keys) - erased(c, keys),
        forall|i: int| 0 <= i < keys.len() && keys[i] != BACKSPACE
            ==> #[trigger] keys_arrive(c, keys.take(i)).erasable < u8::MAX,
    decreases keys.len(),
{
    if keys.len() > 0 {
        let rest = keys.drop_last();
        law_backspaces_erase_only_new_output(c, rest);
        assert forall|i: int| 0 <= i < keys.len() && keys[i] != BACKSPACE
            implies #[trigger] keys_arrive(c, keys.take(i)).erasable < u8::MAX by {
            if i < keys.len() - 1 {
                assert(keys.take(i) =~= rest.take(i));
                assert(rest[i] == keys[i]);
            } else {
                assert(keys.take(i) =~= rest);
            }
        }
    }
}
} // verus!
