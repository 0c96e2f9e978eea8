use vstd::prelude::*;
use vstd::string::*;

use crate::model::opt_str_view;

verus! {

// ---------------------------------------------------------------------------
// The second space-delimited field of a string
// ---------------------------------------------------------------------------

/// The least index at or after `i` where `s` holds a space, if any.
pub open spec fn space_pos_from(s: Seq<char>, i: int) -> Option<int>
    decreases s.len() - i,
{
    if i < 0 || i >= s.len() {
        None
    } else if s[i] == ' ' {
        Some(i)
    } else {
        space_pos_from(s, i + 1)
    }
}

pub proof fn lemma_space_pos_from(s: Seq<char>, i: int)
    requires
        0 <= i <= s.len(),
    ensures
        match space_pos_from(s, i) {
            Some(p) => i <= p < s.len() && s[p] == ' ' && (forall|k: int|
                i <= k < p ==> s[k] != ' '),
            None => forall|k: int| i <= k < s.len() ==> s[k] != ' ',
        },
    decreases s.len() - i,
{
    if i < s.len() {
        lemma_space_pos_from(s, i + 1);
    }
}

/// What splitting `s` on single spaces and taking the second field yields:
/// the text between the first space and the next one (or the end), absent
/// when `s` holds no space at all.
pub open spec fn second_field_spec(s: Seq<char>) -> Option<Seq<char>> {
    match space_pos_from(s, 0) {
        None => None,
        Some(p) => {
            let end = match space_pos_from(s, p + 1) {
                None => s.len() as int,
                Some(q) => q,
            };
            Some(s.subrange(p + 1, end))
        },
    }
}

fn find_space_from(s: &str, start: usize) -> (r: Option<usize>)
    requires
        start <= s@.len(),
    ensures
        match r {
            Some(p) => space_pos_from(s@, start as int) == Some(p as int),
            None => space_pos_from(s@, start as int) is None,
        },
{
    let n = s.unicode_len();
    let mut i: usize = start;
    while i < n
        invariant
            start <= i <= n,
            n == s@.len(),
            space_pos_from(s@, start as int) == space_pos_from(s@, i as int),
        decreases n - i,
    {
        let c = s.get_char(i);
        if c == ' ' {
            return Some(i);
        }
        assert(space_pos_from(s@, i as int) == space_pos_from(s@, i + 1 as int));
        i = i + 1;
    }
    None
}

/// The second space-delimited field of `s`, as the authorization header is
/// split: everything between the first space and the following one.
pub fn second_field(s: &str) -> (r: Option<String>)
    ensures
        opt_str_view(r) == second_field_spec(s@),
{
    let n = s.unicode_len();
    match find_space_from(s, 0) {
        None => None,
        Some(p) => {
            proof {
                lemma_space_pos_from(s@, 0);
            }
            let end = match find_space_from(s, p + 1) {
                None => n,
                Some(q) => {
                    proof {
                        lemma_space_pos_from(s@, p + 1 as int);
                    }
                    q
                },
            };
            let field = s.substring_char(p + 1, end);
            Some(String::from_str(field))
        },
    }
}

// ---------------------------------------------------------------------------
// Lexicographic order on text, by unicode scalar value
// ---------------------------------------------------------------------------

/// `a` sorts at or before `b` in lexicographic order by unicode scalar
/// value (which agrees with byte order on the UTF-8 encodings).
pub open spec fn lex_le(a: Seq<char>, b: Seq<char>) -> bool
    decreases a.len(),
{
    if a.len() == 0 {
        true
    } else if b.len() == 0 {
        false
    } else if (a[0] as u32) == (b[0] as u32) {
        lex_le(a.drop_first(), b.drop_first())
    } else {
        (a[0] as u32) < (b[0] as u32)
    }
}

pub proof fn lemma_lex_le_total(a: Seq<char>, b: Seq<char>)
    ensures
        lex_le(a, b) || lex_le(b, a),
    decreases a.len(),
{
    if a.len() != 0 && b.len() != 0 && (a[0] as u32) == (b[0] as u32) {
        lemma_lex_le_total(a.drop_first(), b.drop_first());
    }
}

pub proof fn lemma_lex_le_trans(a: Seq<char>, b: Seq<char>, c: Seq<char>)
    requires
        lex_le(a, b),
        lex_le(b, c),
    ensures
        lex_le(a, c),
    decreases a.len(),
{
    if a.len() != 0 && b.len() != 0 && c.len() != 0 {
        if (a[0] as u32) == (b[0] as u32) && (b[0] as u32) == (c[0] as u32) {
            lemma_lex_le_trans(a.drop_first(), b.drop_first(), c.drop_first());
        }
    }
}

/// `a` and `b` sort at or before each other: they are interchangeable for
/// ordering purposes.
pub open spec fn lex_eq(a: Seq<char>, b: Seq<char>) -> bool {
    lex_le(a, b) && lex_le(b, a)
}

// ---------------------------------------------------------------------------
// Decimal rendering of counters
// ---------------------------------------------------------------------------

/// The decimal digit character for `d`.
pub open spec fn digit_char(d: nat) -> char {
    if d == 0 {
        '0'
    } else if d == 1 {
        '1'
    } else if d == 2 {
        '2'
    } else if d == 3 {
        '3'
    } else if d == 4 {
        '4'
    } else if d == 5 {
        '5'
    } else if d == 6 {
        '6'
    } else if d == 7 {
        '7'
    } else if d == 8 {
        '8'
    } else {
        '9'
    }
}

/// The decimal rendering of `n`, without leading zeroes.
pub open spec fn dec_str(n: nat) -> Seq<char>
    decreases n,
{
    if n < 10 {
        seq![digit_char(n)]
    } else {
        dec_str(n / 10).push(digit_char(n % 10))
    }
}

fn digit_str(d: u64) -> (r: &'static str)
    requires
        d < 10,
    ensures
        r@ == seq![digit_char(d as nat)],
{
    proof {
        reveal_strlit("0");
        reveal_strlit("1");
        reveal_strlit("2");
        reveal_strlit("3");
        reveal_strlit("4");
        reveal_strlit("5");
        reveal_strlit("6");
        reveal_strlit("7");
        reveal_strlit("8");
        reveal_strlit("9");
    }
    let r = match d {
        0 => "0",
        1 => "1",
        2 => "2",
        3 => "3",
        4 => "4",
        5 => "5",
        6 => "6",
        7 => "7",
        8 => "8",
        _ => "9",
    };
    assert(r@ =~= seq![digit_char(d as nat)]);
    r
}

/// Render `n` in decimal, as the debug endpoints name their records.
pub fn dec_string(n: u64) -> (r: String)
    ensures
        r@ == dec_str(n as nat),
    decreases n,
{
    if n < 10 {
        String::from_str(digit_str(n))
    } else {
        assert(n / 10 < n) by (nonlinear_arith)
            requires
                n >= 10,
        ;
        assert(n % 10 < 10) by (nonlinear_arith);
        let mut s = dec_string(n / 10);
        s.append(digit_str(n % 10));
        assert(s@ =~= dec_str((n / 10) as nat).push(digit_char((n % 10) as nat)));
        s
    }
}

/// Lexicographic comparison of two strings by unicode scalar value.
pub fn str_lex_le(a: &str, b: &str) -> (r: bool)
    ensures
        r == lex_le(a@, b@),
{
    let na = a.unicode_len();
    let nb = b.unicode_len();
    let mut i: usize = 0;
    proof {
        assert(a@.skip(0) =~= a@);
        assert(b@.skip(0) =~= b@);
    }
    while i < na && i < nb
        invariant
            i <= na,
            i <= nb,
            na == a@.len(),
            nb == b@.len(),
            lex_le(a@, b@) == lex_le(a@.skip(i as int), b@.skip(i as int)),
        decreases na - i,
    {
        let ca = a.get_char(i);
        let cb = b.get_char(i);
        if (ca as u32) != (cb as u32) {
            return (ca as u32) < (cb as u32);
        }
        proof {
            assert(a@.skip(i as int).drop_first() =~= a@.skip(i + 1 as int));
            assert(b@.skip(i as int).drop_first() =~= b@.skip(i + 1 as int));
        }
        i = i + 1;
    }
    i == na
}

} // verus!
