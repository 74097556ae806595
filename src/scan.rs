//! A scan of Fluent text for number literals whose fraction is too long to format.
use vstd::prelude::*;
use vstd::std_specs::iter::IteratorSpec;

verus! {

pub open spec fn is_digit(c: char) -> bool {
    '0' <= c && c <= '9'
}

/// At `i` stands a `.` followed by twenty digits.
pub open spec fn long_fraction_at(s: Seq<char>, i: int) -> bool {
    &&& 0 <= i && i + 20 < s.len()
    &&& s[i] == '.'
    &&& forall|k: int| 1 <= k <= 20 ==> is_digit(#[trigger] s[i + k])
}

/// Somewhere in `s` a `.` is followed by twenty digits or more.
pub open spec fn long_fraction(s: Seq<char>) -> bool {
    exists|i: int| long_fraction_at(s, i)
}

/// Whether some `.` of `s` is followed by twenty digits or more.
pub fn has_long_fraction(s: &str) -> (r: bool)
    ensures
        r == long_fraction(s@),
{
    let mut after_dot = false;
    let mut run: usize = 0;
    let ghost t = s@;
    for c in it: s.chars()
        invariant
            it.seq() == t,
            t == s@,
            forall|i: int| 0 <= i && i + 20 < it.index() ==> !long_fraction_at(t, i),
            after_dot ==> run < 20 && it.index() >= run + 1 && t[it.index() - 1 - run] == '.'
                && forall|k: int| 1 <= k <= run ==> is_digit(#[trigger] t[it.index() - 1 - run + k]),
            !after_dot ==> forall|j: int| 0 <= j < it.index() && t[j] == '.' ==> exists|k: int|
                j < k < it.index() && !is_digit(#[trigger] t[k]),
    {
        let ghost p = it.index();
        assert(t[p] == c);
        proof {
            if p >= 20 && long_fraction_at(t, p - 20) {
                let i = p - 20;
                assert(forall|k: int| i < k < p ==> is_digit(t[k])) by {
                    assert forall|k: int| i < k < p implies is_digit(t[k]) by {
                        assert(t[i + (k - i)] == t[k]);
                    }
                }
                assert(is_digit(t[i + 20]));
                if after_dot {
                    let d = p - 1 - run;
                    if d > i {
                        assert(is_digit(t[d]));
                    } else if d < i {
                        assert(t[d + (i - d)] == t[i]);
                    }
                } else {
                    let k = choose|k: int| i < k < p && !is_digit(#[trigger] t[k]);
                }
            }
        }
        if c == '.' {
            after_dot = true;
            run = 0;
        } else if '0' <= c && c <= '9' && after_dot {
            if run == 19 {
                proof {
                    let d = p - 20;
                    assert forall|k: int| 1 <= k <= 20 implies is_digit(#[trigger] t[d + k]) by {
                        if k < 20 {
                            assert(t[p - 1 - run + k] == t[d + k]);
                        }
                    }
                    assert(long_fraction_at(t, d));
                }
                return true;
            }
            run = run + 1;
        } else {
            proof {
                if after_dot {
                    assert(!is_digit(t[p]));
                }
            }
            after_dot = false;
        }
    }
    proof {
        assert forall|i: int| !long_fraction_at(s@, i) by {
            if long_fraction_at(s@, i) {
                assert(i + 20 < t.len());
            }
        }
    }
    false
}

} // verus!
