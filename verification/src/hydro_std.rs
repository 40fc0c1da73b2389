use vstd::prelude::*;

verus! {

/// The code a guest hands to the host's `putchar` for a character.
pub open spec fn char_code(c: char) -> i32 {
    (c as u32) as i32
}

/// The codes that printing `s` hands to the host's `putchar`, one per
/// character, in order.
pub fn print(s: &str) -> (codes: Vec<i32>)
    ensures
        codes@ == s@.map_values(|c: char| char_code(c)),
{
    let n = s.unicode_len();
    let mut codes: Vec<i32> = Vec::new();
    for i in 0..n
        invariant
            n == s@.len(),
            codes@ == s@.take(i as int).map_values(|c: char| char_code(c)),
    {
        let c = s.get_char(i);
        codes.push(c as u32 as i32);
        proof {
            assert(s@.take(i + 1).map_values(|c: char| char_code(c)) =~= s@.take(i as int).map_values(
                |c: char| char_code(c),
            ).push(char_code(c)));
        }
    }
    proof {
        assert(s@.take(n as int) =~= s@);
    }
    codes
}

/// The codes that printing `s` and then a newline hands to `putchar`.
pub fn println(s: &str) -> (codes: Vec<i32>)
    ensures
        codes@ == s@.map_values(|c: char| char_code(c)).push(10i32),
{
    let mut codes = print(s);
    let mut newline = print("\n");
    proof {
        reveal_strlit("\n");
        assert(newline@ =~= seq![10i32]);
    }
    codes.append(&mut newline);
    codes
}

} // verus!
