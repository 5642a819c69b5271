//! Percent-decoding of playlist paths over a fixed table of escape
//! sequences: a known-narrow allowlist of the escapes that occur in
//! practice, not general percent-decoding.

use vstd::prelude::*;

verus! {

/// One step of the fixed-table percent decoding: the replacement character
/// and the number of characters consumed, when an escape of the table
/// starts at the head of `s`. The table covers the space, common
/// punctuation, and a handful of accented and quote characters whose UTF-8
/// encodings span two or three escaped bytes.
pub open spec fn decode_step(s: Seq<char>) -> Option<(char, int)> {
    if s.len() >= 3 && s[0] == '%' {
        if s[1] == '2' && s[2] == '0' {
            Some((' ', 3))
        } else if s[1] == '2' && s[2] == '1' {
            Some(('!', 3))
        } else if s[1] == '2' && s[2] == '6' {
            Some(('&', 3))
        } else if s[1] == '2' && s[2] == '7' {
            Some(('\'', 3))
        } else if s[1] == '2' && s[2] == '8' {
            Some(('(', 3))
        } else if s[1] == '2' && s[2] == '9' {
            Some((')', 3))
        } else if s[1] == '5' && s[2] == 'B' {
            Some(('[', 3))
        } else if s[1] == '5' && s[2] == 'D' {
            Some((']', 3))
        } else if s[1] == '2' && s[2] == 'C' {
            Some((',', 3))
        } else if s.len() >= 6 && s[1] == 'C' && s[2] == '3' && s[3] == '%' {
            if s[4] == 'A' && s[5] == '8' {
                Some(('\u{e8}', 6))
            } else if s[4] == 'A' && s[5] == '9' {
                Some(('\u{e9}', 6))
            } else if s[4] == 'A' && s[5] == 'D' {
                Some(('\u{ed}', 6))
            } else if s[4] == 'B' && s[5] == 'A' {
                Some(('\u{fa}', 6))
            } else {
                None
            }
        } else if s.len() >= 9 && s[1] == 'E' && s[2] == '2' && s[3] == '%' && s[4] == '8' && s[5]
            == '0' && s[6] == '%' && s[7] == '9' {
            if s[8] == 'C' {
                Some(('\u{201c}', 9))
            } else if s[8] == 'D' {
                Some(('\u{201d}', 9))
            } else if s[8] == '9' {
                Some(('\u{2019}', 9))
            } else {
                None
            }
        } else {
            None
        }
    } else {
        None
    }
}

/// The percent-decoded form of `s`: a single left-to-right pass replacing
/// each table escape by its character and copying everything else. No
/// replacement produces a `%`, so one pass decodes everything the fixed
/// table covers.
pub open spec fn decode_seq(s: Seq<char>) -> Seq<char>
    decreases s.len(),
{
    if s.len() == 0 {
        Seq::empty()
    } else {
        match decode_step(s) {
            Some(st) => seq![st.0] + decode_seq(s.skip(st.1)),
            None => seq![s[0]] + decode_seq(s.skip(1)),
        }
    }
}

/// Looks for a table escape at position `i`, returning its replacement (as
/// a one-character string) and the number of characters it spans.
fn decode_step_at(s: &str, i: usize) -> (r: Option<(&'static str, usize)>)
    requires
        i < s@.len(),
    ensures
        match r {
            Some(pr) => decode_step(s@.skip(i as int)) matches Some(st) && pr.0@ == seq![st.0]
                && pr.1 == st.1 && i + pr.1 <= s@.len(),
            None => decode_step(s@.skip(i as int)) is None,
        },
{
    let n = s.unicode_len();
    let ghost t = s@.skip(i as int);
    proof {
        reveal_strlit(" ");
        reveal_strlit("!");
        reveal_strlit("&");
        reveal_strlit("'");
        reveal_strlit("(");
        reveal_strlit(")");
        reveal_strlit("[");
        reveal_strlit("]");
        reveal_strlit(",");
        reveal_strlit("\u{e8}");
        reveal_strlit("\u{e9}");
        reveal_strlit("\u{ed}");
        reveal_strlit("\u{fa}");
        reveal_strlit("\u{201c}");
        reveal_strlit("\u{201d}");
        reveal_strlit("\u{2019}");
    }
    if !(n - i >= 3 && s.get_char(i) == '%') {
        return None;
    }
    let c1 = s.get_char(i + 1);
    let c2 = s.get_char(i + 2);
    proof {
        assert(t[0] == s@[i as int]);
        assert(t[1] == s@[i + 1]);
        assert(t[2] == s@[i + 2]);
    }
    if c1 == '2' && c2 == '0' {
        Some((" ", 3))
    } else if c1 == '2' && c2 == '1' {
        Some(("!", 3))
    } else if c1 == '2' && c2 == '6' {
        Some(("&", 3))
    } else if c1 == '2' && c2 == '7' {
        Some(("'", 3))
    } else if c1 == '2' && c2 == '8' {
        Some(("(", 3))
    } else if c1 == '2' && c2 == '9' {
        Some((")", 3))
    } else if c1 == '5' && c2 == 'B' {
        Some(("[", 3))
    } else if c1 == '5' && c2 == 'D' {
        Some(("]", 3))
    } else if c1 == '2' && c2 == 'C' {
        Some((",", 3))
    } else if n - i >= 6 && c1 == 'C' && c2 == '3' && char_eq_at(s, i + 3, '%') {
        let c4 = s.get_char(i + 4);
        let c5 = s.get_char(i + 5);
        proof {
            assert(t[3] == s@[i + 3]);
            assert(t[4] == s@[i + 4]);
            assert(t[5] == s@[i + 5]);
        }
        if c4 == 'A' && c5 == '8' {
            Some(("\u{e8}", 6))
        } else if c4 == 'A' && c5 == '9' {
            Some(("\u{e9}", 6))
        } else if c4 == 'A' && c5 == 'D' {
            Some(("\u{ed}", 6))
        } else if c4 == 'B' && c5 == 'A' {
            Some(("\u{fa}", 6))
        } else {
            None
        }
    } else if n - i >= 9 && c1 == 'E' && c2 == '2' && char_eq_at(s, i + 3, '%') && char_eq_at(
        s,
        i + 4,
        '8',
    ) && char_eq_at(s, i + 5, '0') && char_eq_at(s, i + 6, '%') && char_eq_at(s, i + 7, '9') {
        let c8 = s.get_char(i + 8);
        proof {
            assert(t[3] == s@[i + 3]);
            assert(t[4] == s@[i + 4]);
            assert(t[5] == s@[i + 5]);
            assert(t[6] == s@[i + 6]);
            assert(t[7] == s@[i + 7]);
            assert(t[8] == s@[i + 8]);
        }
        if c8 == 'C' {
            Some(("\u{201c}", 9))
        } else if c8 == 'D' {
            Some(("\u{201d}", 9))
        } else if c8 == '9' {
            Some(("\u{2019}", 9))
        } else {
            None
        }
    } else {
        None
    }
}

/// Whether `s[i]` equals `c`; bridges the view of the suffix under scan.
fn char_eq_at(s: &str, i: usize, c: char) -> (r: bool)
    requires
        i < s@.len(),
    ensures
        r == (s@[i as int] == c),
{
    s.get_char(i) == c
}

/// Percent-decodes a path with the fixed escape table.
#[verifier::loop_isolation(false)]
pub fn decode_path(s: &str) -> (r: String)
    ensures
        r@ == decode_seq(s@),
{
    let n = s.unicode_len();
    let mut out = String::new();
    let mut i: usize = 0;
    proof {
        assert(s@.skip(0) =~= s@);
    }
    while i < n
        invariant
            i <= n,
            out@ + decode_seq(s@.skip(i as int)) == decode_seq(s@),
        decreases n - i,
    {
        match decode_step_at(s, i) {
            Some(pr) => {
                let (rep, k) = pr;
                out.append(rep);
                proof {
                    assert(s@.skip(i as int).skip(k as int) =~= s@.skip((i + k) as int));
                    assert(out@ + decode_seq(s@.skip((i + k) as int)) =~= decode_seq(s@));
                }
                i = i + k;
            },
            None => {
                let piece = s.substring_char(i, i + 1);
                out.append(piece);
                proof {
                    assert(piece@ =~= seq![s@[i as int]]);
                    assert(s@.skip(i as int).skip(1) =~= s@.skip((i + 1) as int));
                    assert(out@ + decode_seq(s@.skip((i + 1) as int)) =~= decode_seq(s@));
                }
                i = i + 1;
            },
        }
    }
    proof {
        assert(s@.skip(n as int) =~= Seq::<char>::empty());
        assert(out@ =~= decode_seq(s@));
    }
    out
}

} // verus!
