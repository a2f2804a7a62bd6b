use vstd::prelude::*;

verus! {

/// The render quality a `--quality` argument names: "baja" (low) is 1,
/// "media" (medium) 2, "alta" (high) 3; any other word keeps `default`.
pub open spec fn quality_named(name: Seq<char>, default: u8) -> u8 {
    if name == seq!['b', 'a', 'j', 'a'] {
        1
    } else if name == seq!['m', 'e', 'd', 'i', 'a'] {
        2
    } else if name == seq!['a', 'l', 't', 'a'] {
        3
    } else {
        default
    }
}

/// The characters of `s`, in order.
fn chars_of(s: &str) -> (v: Vec<char>)
    ensures
        v@ == s@,
{
    broadcast use vstd::string::axiom_spec_iter;

    let mut v: Vec<char> = Vec::new();
    for ch in it: s.chars()
        invariant
            it.seq() == s@,
            v@ == s@.take(it.index() as int),
    {
        proof {
            assert(ch == s@[it.index() as int]);
        }
        v.push(ch);
        assert(v@ =~= s@.take(it.index() + 1));
    }
    assert(v@ =~= s@);
    v
}

/// Reads the value of `--quality`: "baja", "media" or "alta"; any other
/// word keeps `default`.
pub fn parse_quality(s: &str, default: u8) -> (q: u8)
    ensures
        q == quality_named(s@, default),
{
    let c = chars_of(s);
    let n = c.len();
    if n == 4 && c[0] == 'b' && c[1] == 'a' && c[2] == 'j' && c[3] == 'a' {
        assert(c@ =~= seq!['b', 'a', 'j', 'a']);
        1
    } else if n == 5 && c[0] == 'm' && c[1] == 'e' && c[2] == 'd' && c[3] == 'i' && c[4] == 'a' {
        assert(c@ =~= seq!['m', 'e', 'd', 'i', 'a']);
        2
    } else if n == 4 && c[0] == 'a' && c[1] == 'l' && c[2] == 't' && c[3] == 'a' {
        assert(c@ =~= seq!['a', 'l', 't', 'a']);
        assert(c@[0] != seq!['b', 'a', 'j', 'a'][0]);
        3
    } else {
        proof {
            if c@ == seq!['b', 'a', 'j', 'a'] {
                assert(c@[0] == 'b' && c@[1] == 'a' && c@[2] == 'j' && c@[3] == 'a');
            }
            if c@ == seq!['m', 'e', 'd', 'i', 'a'] {
                assert(c@[0] == 'm' && c@[1] == 'e' && c@[2] == 'd' && c@[3] == 'i' && c@[4] == 'a');
            }
            if c@ == seq!['a', 'l', 't', 'a'] {
                assert(c@[0] == 'a' && c@[1] == 'l' && c@[2] == 't' && c@[3] == 'a');
            }
        }
        default
    }
}

} // verus!
