use crate::bound::Bound;
use crate::interval::{Interval, Union};
use crate::interval_set::IntervalSet;
use crate::left::Left;
use crate::right::Right;
use vstd::prelude::*;
use vstd::string::StringExecFns;

verus! {

/// The character of a decimal digit.
pub open spec fn digit_char(d: nat) -> char {
    if d == 0 {
        '0'
    } else if d == 1 {
        '1'
    } else if d == 2 {
        '2'
    } else if d == 3 {
        '3'
    } else if d == 4 {
        '4'
    } else if d == 5 {
        '5'
    } else if d == 6 {
        '6'
    } else if d == 7 {
        '7'
    } else if d == 8 {
        '8'
    } else {
        '9'
    }
}

/// The decimal digits of `n`, without leading zeros.
pub open spec fn digits(n: nat) -> Seq<char>
    decreases n,
{
    if n < 10 {
        seq![digit_char(n)]
    } else {
        digits(n / 10).push(digit_char(n % 10))
    }
}

/// A value as endpoints are written: its decimal digits, after a minus sign
/// where it is negative, and two decimal places.
pub open spec fn value_text(k: int) -> Seq<char> {
    let d = if k < 0 {
        seq!['-'] + digits((-k) as nat)
    } else {
        digits(k as nat)
    };
    d + seq!['.', '0', '0']
}

fn digit_str(d: u64) -> (r: &'static str)
    requires
        d < 10,
    ensures
        r@ == seq![digit_char(d as nat)],
{
    proof {
        reveal_strlit("0");
        reveal_strlit("1");
        reveal_strlit("2");
        reveal_strlit("3");
        reveal_strlit("4");
        reveal_strlit("5");
        reveal_strlit("6");
        reveal_strlit("7");
        reveal_strlit("8");
        reveal_strlit("9");
    }
    match d {
        0 => "0",
        1 => "1",
        2 => "2",
        3 => "3",
        4 => "4",
        5 => "5",
        6 => "6",
        7 => "7",
        8 => "8",
        _ => "9",
    }
}

fn push_digits(s: &mut String, n: u64)
    ensures
        final(s)@ == old(s)@ + digits(n as nat),
    decreases n,
{
    if n >= 10 {
        push_digits(s, n / 10);
    }
    s.append(digit_str(n % 10));
    proof {
        if n >= 10 {
            assert(final(s)@ =~= old(s)@ + digits(n as nat));
        }
    }
}

fn push_value(s: &mut String, k: i64)
    ensures
        final(s)@ == old(s)@ + value_text(k as int),
{
    proof {
        reveal_strlit("-");
        reveal_strlit(".00");
    }
    if k < 0 {
        s.append("-");
        let m = (0i128 - k as i128) as u64;
        push_digits(s, m);
    } else {
        push_digits(s, k as u64);
    }
    s.append(".00");
    proof {
        assert(final(s)@ =~= old(s)@ + value_text(k as int));
    }
}

impl Left {
    /// How the left side is written on its own.
    pub open spec fn text(self) -> Seq<char> {
        match self.0 {
            Bound::Closed(k) => seq!['['] + value_text(k as int),
            Bound::Open(k) => seq!['('] + value_text(k as int),
            Bound::Unbound => seq!['(', '-', '∞'],
        }
    }

    /// Writes the left side on its own: `[k` where closed, `(k` where open.
    pub fn render(&self) -> (r: String)
        ensures
            r@ == self.text(),
    {
        let mut s = String::new();
        proof {
            reveal_strlit("[");
            reveal_strlit("(");
            reveal_strlit("(-∞");
        }
        match self.0 {
            Bound::Closed(k) => {
                s.append("[");
                push_value(&mut s, k);
            },
            Bound::Open(k) => {
                s.append("(");
                push_value(&mut s, k);
            },
            Bound::Unbound => s.append("(-∞"),
        }
        proof {
            assert(s@ =~= self.text());
        }
        s
    }
}

impl Right {
    /// How the right side is written on its own.
    pub open spec fn text(self) -> Seq<char> {
        match self.0 {
            Bound::Closed(k) => value_text(k as int) + seq![']'],
            Bound::Open(k) => value_text(k as int) + seq![')'],
            Bound::Unbound => seq!['+', '∞', ')'],
        }
    }

    /// Writes the right side on its own: `k]` where closed, `k)` where open.
    pub fn render(&self) -> (r: String)
        ensures
            r@ == self.text(),
    {
        let mut s = String::new();
        proof {
            reveal_strlit("]");
            reveal_strlit(")");
            reveal_strlit("+∞)");
        }
        match self.0 {
            Bound::Closed(k) => {
                push_value(&mut s, k);
                s.append("]");
            },
            Bound::Open(k) => {
                push_value(&mut s, k);
                s.append(")");
            },
            Bound::Unbound => s.append("+∞)"),
        }
        proof {
            assert(s@ =~= self.text());
        }
        s
    }
}

/// How a range is written: its two sides, with `[` or `]` facing in where
/// closed and out where open.
pub open spec fn range_text(l: Left, r: Right) -> Seq<char> {
    let lower = match l.0 {
        Bound::Closed(k) => seq!['['] + value_text(k as int),
        Bound::Open(k) => seq![']'] + value_text(k as int),
        Bound::Unbound => seq![']', '-', '∞'],
    };
    let upper = match r.0 {
        Bound::Closed(k) => value_text(k as int) + seq![']'],
        Bound::Open(k) => value_text(k as int) + seq!['['],
        Bound::Unbound => seq!['+', '∞', '['],
    };
    lower + seq![','] + upper
}

impl Interval {
    /// How the interval is written: `∅` when empty, `{k}` for a single
    /// value, else as `range_text` says.
    pub open spec fn text(self) -> Seq<char> {
        match self {
            Interval::Empty => seq!['∅'],
            Interval::Infinity => seq![']', '-', '∞', ',', '+', '∞', '['],
            Interval::Range(l, r) => match (l.0, r.0) {
                (Bound::Closed(k1), Bound::Closed(k2)) => {
                    if k1 == k2 {
                        seq!['{'] + value_text(k1 as int) + seq!['}']
                    } else {
                        range_text(l, r)
                    }
                },
                _ => range_text(l, r),
            },
        }
    }

    fn push_text(&self, s: &mut String)
        ensures
            final(s)@ == old(s)@ + self.text(),
    {
        proof {
            reveal_strlit("∅");
            reveal_strlit("]-∞,+∞[");
            reveal_strlit("{");
            reveal_strlit("}");
            reveal_strlit("[");
            reveal_strlit("]");
            reveal_strlit("]-∞");
            reveal_strlit(",");
            reveal_strlit("+∞[");
        }
        match *self {
            Interval::Empty => s.append("∅"),
            Interval::Infinity => s.append("]-∞,+∞["),
            Interval::Range(l, r) => {
                if let (Bound::Closed(k1), Bound::Closed(k2)) = (l.0, r.0) {
                    if k1 == k2 {
                        s.append("{");
                        push_value(s, k1);
                        s.append("}");
                        proof {
                            assert(final(s)@ =~= old(s)@ + self.text());
                        }
                        return;
                    }
                }
                match l.0 {
                    Bound::Closed(k) => {
                        s.append("[");
                        push_value(s, k);
                    },
                    Bound::Open(k) => {
                        s.append("]");
                        push_value(s, k);
                    },
                    Bound::Unbound => s.append("]-∞"),
                }
                s.append(",");
                match r.0 {
                    Bound::Closed(k) => {
                        push_value(s, k);
                        s.append("]");
                    },
                    Bound::Open(k) => {
                        push_value(s, k);
                        s.append("[");
                    },
                    Bound::Unbound => s.append("+∞["),
                }
            },
        }
        proof {
            assert(final(s)@ =~= old(s)@ + self.text());
        }
    }

    /// Writes the interval as `text` describes.
    pub fn render(&self) -> (r: String)
        ensures
            r@ == self.text(),
    {
        let mut s = String::new();
        self.push_text(&mut s);
        proof {
            assert(s@ =~= self.text());
        }
        s
    }
}

/// The separator between the intervals of a union.
pub open spec fn union_sep() -> Seq<char> {
    seq![' ', 'U', ' ']
}

impl Union {
    /// How the union is written: the interval, or the two of them joined by
    /// ` U `.
    pub open spec fn text(self) -> Seq<char> {
        match self {
            Union::Single(i) => i.text(),
            Union::Couple(a, b) => a.text() + union_sep() + b.text(),
        }
    }

    /// Writes the union as `text` describes.
    pub fn render(&self) -> (r: String)
        ensures
            r@ == self.text(),
    {
        let mut s = String::new();
        proof {
            reveal_strlit(" U ");
        }
        match *self {
            Union::Single(i) => i.push_text(&mut s),
            Union::Couple(a, b) => {
                a.push_text(&mut s);
                s.append(" U ");
                b.push_text(&mut s);
            },
        }
        proof {
            assert(s@ =~= self.text());
        }
        s
    }
}

/// The intervals of `s` written one after the other, joined by ` U `.
pub open spec fn joined(s: Seq<Interval>) -> Seq<char>
    decreases s.len(),
{
    if s.len() == 0 {
        Seq::empty()
    } else if s.len() == 1 {
        s[0].text()
    } else {
        joined(s.drop_last()) + union_sep() + s.last().text()
    }
}

impl IntervalSet {
    /// How the set is written: `∅` when it holds no interval, else its
    /// intervals in order, joined by ` U `.
    pub open spec fn text(&self) -> Seq<char> {
        if self@.len() == 0 {
            seq!['∅']
        } else {
            joined(self@)
        }
    }

    /// Writes the set as `text` describes.
    pub fn render(&self) -> (r: String)
        ensures
            r@ == self.text(),
    {
        let mut s = String::new();
        proof {
            reveal_strlit("∅");
            reveal_strlit(" U ");
        }
        let segments = self.segments();
        if segments.len() == 0 {
            s.append("∅");
            return s;
        }
        let mut i: usize = 0;
        while i < segments.len()
            invariant
                segments@ == self@,
                0 <= i <= segments@.len(),
                s@ == joined(segments@.subrange(0, i as int)),
            decreases segments@.len() - i,
        {
            let ghost before = s@;
            proof {
                reveal_strlit(" U ");
            }
            if i > 0 {
                s.append(" U ");
            }
            segments[i].push_text(&mut s);
            proof {
                let t = segments@.subrange(0, i + 1);
                assert(t.drop_last() =~= segments@.subrange(0, i as int));
                assert(t.last() == segments@[i as int]);
                if i == 0 {
                    assert(s@ =~= joined(t));
                } else {
                    assert(joined(t) == joined(t.drop_last()) + union_sep() + t.last().text());
                    assert(s@ =~= before + union_sep() + segments@[i as int].text());
                }
            }
            i += 1;
        }
        proof {
            assert(segments@.subrange(0, i as int) =~= segments@);
        }
        s
    }
}

} // verus!
