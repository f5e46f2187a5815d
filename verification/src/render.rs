use vstd::prelude::*;

verus! {

/// The character for one decimal digit.
pub open spec fn digit_char_s(d: nat) -> char {
    if d == 0 {
        '0'
    } else if d == 1 {
        '1'
    } else if d == 2 {
        '2'
    } else if d == 3 {
        '3'
    } else if d == 4 {
        '4'
    } else if d == 5 {
        '5'
    } else if d == 6 {
        '6'
    } else if d == 7 {
        '7'
    } else if d == 8 {
        '8'
    } else {
        '9'
    }
}

/// The base-10 rendering of a natural number, most significant digit first.
pub open spec fn dec_chars(n: nat) -> Seq<char>
    decreases n,
{
    if n < 10 {
        seq![digit_char_s(n)]
    } else {
        dec_chars(n / 10).push(digit_char_s(n % 10))
    }
}

/// The base-10 rendering of a signed 64-bit integer, with a leading
/// minus sign when negative.
pub open spec fn i64_chars(n: i64) -> Seq<char> {
    if n >= 0 {
        dec_chars(n as nat)
    } else {
        seq!['-'] + dec_chars((-(n as int)) as nat)
    }
}

/// Parts joined by a comma and a space.
pub open spec fn join_comma(parts: Seq<Seq<char>>) -> Seq<char>
    decreases parts,
{
    if parts.len() == 0 {
        Seq::empty()
    } else if parts.len() == 1 {
        parts[0]
    } else {
        parts[0] + ", "@ + join_comma(parts.drop_first())
    }
}

/// Joining one more part appends a separator exactly when parts were
/// already present.
pub proof fn lemma_join_comma_push(parts: Seq<Seq<char>>, x: Seq<char>)
    ensures
        join_comma(parts.push(x)) == if parts.len() == 0 {
            x
        } else {
            join_comma(parts) + ", "@ + x
        },
    decreases parts.len(),
{
    if parts.len() == 0 {
        assert(parts.push(x)[0] == x);
        assert(join_comma(parts.push(x)) == x);
    } else if parts.len() == 1 {
        assert(parts.push(x).drop_first() =~= seq![x]);
        assert(join_comma(seq![x]) == seq![x][0]);
        assert(parts.push(x)[0] == parts[0]);
        assert(join_comma(parts.push(x)) == parts[0] + ", "@ + x);
    } else {
        lemma_join_comma_push(parts.drop_first(), x);
        assert(parts.push(x).drop_first() =~= parts.drop_first().push(x));
        assert(join_comma(parts.push(x)) == parts[0] + ", "@ + join_comma(
            parts.drop_first().push(x),
        ));
        assert(join_comma(parts) + ", "@ + x == parts[0] + ", "@ + (join_comma(parts.drop_first())
            + ", "@ + x)) by {
            assert(join_comma(parts) == parts[0] + ", "@ + join_comma(parts.drop_first()));
            assert((parts[0] + ", "@ + join_comma(parts.drop_first())) + ", "@ + x =~= parts[0]
                + ", "@ + (join_comma(parts.drop_first()) + ", "@ + x));
        }
    }
}

/// The digit character for `d`.
pub fn digit_char(d: u64) -> (r: char)
    requires
        d < 10,
    ensures
        r == digit_char_s(d as nat),
{
    if d == 0 {
        '0'
    } else if d == 1 {
        '1'
    } else if d == 2 {
        '2'
    } else if d == 3 {
        '3'
    } else if d == 4 {
        '4'
    } else if d == 5 {
        '5'
    } else if d == 6 {
        '6'
    } else if d == 7 {
        '7'
    } else if d == 8 {
        '8'
    } else {
        '9'
    }
}

/// Appends the base-10 digits of `n` to `out`.
pub fn push_dec_chars(out: &mut Vec<char>, n: u64)
    ensures
        final(out)@ == old(out)@ + dec_chars(n as nat),
    decreases n,
{
    if n < 10 {
        out.push(digit_char(n));
        assert(final(out)@ =~= old(out)@ + dec_chars(n as nat));
    } else {
        push_dec_chars(out, n / 10);
        out.push(digit_char(n % 10));
        assert(final(out)@ =~= old(out)@ + dec_chars(n as nat));
    }
}

/// Relies on `String`'s `FromIterator` over characters: collecting
/// characters yields a string holding exactly that character sequence.
#[verifier::external_body]
pub fn string_from_chars(cs: &Vec<char>) -> (r: String)
    ensures
        r@ == cs@,
{
    cs.iter().collect()
}

/// The base-10 rendering of `n` as a string.
pub fn u64_string(n: u64) -> (r: String)
    ensures
        r@ == dec_chars(n as nat),
{
    let mut out: Vec<char> = Vec::new();
    push_dec_chars(&mut out, n);
    string_from_chars(&out)
}

/// The base-10 rendering of `n` as a string, signed.
pub fn i64_string(n: i64) -> (r: String)
    ensures
        r@ == i64_chars(n),
{
    if n >= 0 {
        u64_string(n as u64)
    } else {
        let magnitude: u64 = if n == i64::MIN {
            9223372036854775808u64
        } else {
            (-n) as u64
        };
        assert(magnitude == (-(n as int)) as nat);
        let mut out: Vec<char> = Vec::new();
        out.push('-');
        push_dec_chars(&mut out, magnitude);
        proof {
            assert(out@ =~= seq!['-'] + dec_chars((-(n as int)) as nat));
        }
        string_from_chars(&out)
    }
}

} // verus!
