//! Character-level text helpers shared by the path model, the rule engine
//! and the catalog search: ASCII case folding, substring containment and
//! lexicographic ordering of character sequences.
use vstd::prelude::*;

verus! {

/// ASCII lowercase of a single character: `'A'..='Z'` map to `'a'..='z'`,
/// every other character is unchanged.
pub open spec fn lower_char(c: char) -> char {
    if 'A' as u32 <= c as u32 && c as u32 <= 'Z' as u32 {
        ((c as u32) + 32) as char
    } else {
        c
    }
}

/// ASCII lowercase of a character sequence, character by character.
pub open spec fn lower_seq(s: Seq<char>) -> Seq<char> {
    Seq::new(s.len(), |i: int| lower_char(s[i]))
}

/// Lowercase the ASCII letters of `s`, leaving all other characters unchanged.
pub fn lower_str(s: &str) -> (r: String)
    ensures
        r@ == lower_seq(s@),
{
    let n: usize = s.unicode_len();
    let mut out = String::new();
    let mut i: usize = 0;
    while i < n
        invariant
            n == s@.len(),
            i <= n,
            out@ == lower_seq(s@.take(i as int)),
        decreases n - i,
    {
        let c = s.get_char(i);
        let cu: u32 = c as u32;
        if 65 <= cu && cu <= 90 {
            let rep: &str = match c {
                'A' => "a",
                'B' => "b",
                'C' => "c",
                'D' => "d",
                'E' => "e",
                'F' => "f",
                'G' => "g",
                'H' => "h",
                'I' => "i",
                'J' => "j",
                'K' => "k",
                'L' => "l",
                'M' => "m",
                'N' => "n",
                'O' => "o",
                'P' => "p",
                'Q' => "q",
                'R' => "r",
                'S' => "s",
                'T' => "t",
                'U' => "u",
                'V' => "v",
                'W' => "w",
                'X' => "x",
                'Y' => "y",
                _ => "z",
            };
            proof {
                reveal_strlit("a");
                reveal_strlit("b");
                reveal_strlit("c");
                reveal_strlit("d");
                reveal_strlit("e");
                reveal_strlit("f");
                reveal_strlit("g");
                reveal_strlit("h");
                reveal_strlit("i");
                reveal_strlit("j");
                reveal_strlit("k");
                reveal_strlit("l");
                reveal_strlit("m");
                reveal_strlit("n");
                reveal_strlit("o");
                reveal_strlit("p");
                reveal_strlit("q");
                reveal_strlit("r");
                reveal_strlit("s");
                reveal_strlit("t");
                reveal_strlit("u");
                reveal_strlit("v");
                reveal_strlit("w");
                reveal_strlit("x");
                reveal_strlit("y");
                reveal_strlit("z");
                assert(rep@ =~= seq![lower_char(c)]);
            }
            out.append(rep);
        } else {
            let piece = s.substring_char(i, i + 1);
            proof {
                assert(piece@ =~= seq![s@[i as int]]);
                assert(lower_char(s@[i as int]) == s@[i as int]);
            }
            out.append(piece);
        }
        proof {
            assert(out@ =~= lower_seq(s@.take(i + 1 as int)));
        }
        i = i + 1;
    }
    proof {
        assert(s@.take(n as int) =~= s@);
    }
    out
}

/// Folding case twice is the same as folding it once.
pub proof fn lemma_lower_idempotent(s: Seq<char>)
    ensures
        lower_seq(lower_seq(s)) == lower_seq(s),
{
    assert(lower_seq(lower_seq(s)) =~= lower_seq(s));
}

/// Character-for-character equality of two string slices.
pub fn str_eq(a: &str, b: &str) -> (r: bool)
    ensures
        r == (a@ == b@),
{
    let na: usize = a.unicode_len();
    let nb: usize = b.unicode_len();
    if na != nb {
        return false;
    }
    let mut i: usize = 0;
    while i < na
        invariant
            na == a@.len(),
            na == b@.len(),
            i <= na,
            forall|j: int| 0 <= j < i ==> a@[j] == b@[j],
        decreases na - i,
    {
        if a.get_char(i) != b.get_char(i) {
            return false;
        }
        i = i + 1;
    }
    proof {
        assert(a@ =~= b@);
    }
    true
}

} // verus!
