//! The edge record: one `(src, dest, weight, timestamp)` tuple, the unit of
//! work of the whole pipeline.
//!
//! The numeric fields are kept as their textual form, validated against a
//! decimal-literal grammar (optional sign, digits with at most one decimal
//! point, optional exponent). The grammar is given as a small deterministic
//! automaton so that the validator can be proved to recognise exactly the
//! well-formed texts.

use vstd::prelude::*;

verus! {

/// Mathematical image of an `EdgeRecord`: every field as a byte sequence.
pub struct RecordView {
    pub src: Seq<u8>,
    pub dest: Seq<u8>,
    pub weight: Seq<u8>,
    pub timestamp: Seq<u8>,
}

/// One decoded edge: two opaque node identifiers and the textual forms of
/// the signed weight and the epoch timestamp.
#[derive(Clone, Debug, PartialEq, Eq)]
pub struct EdgeRecord {
    pub src: Vec<u8>,
    pub dest: Vec<u8>,
    pub weight: Vec<u8>,
    pub timestamp: Vec<u8>,
}

impl View for EdgeRecord {
    type V = RecordView;

    open spec fn view(&self) -> RecordView {
        RecordView {
            src: self.src@,
            dest: self.dest@,
            weight: self.weight@,
            timestamp: self.timestamp@,
        }
    }
}

/// A record is well formed when its weight and timestamp are numeric texts.
pub open spec fn record_wf(r: RecordView) -> bool {
    is_numeric_text(r.weight) && is_numeric_text(r.timestamp)
}

pub open spec fn is_digit(b: u8) -> bool {
    48 <= b && b <= 57
}

/// Transition function of the numeric-literal automaton. States:
/// 0 start; 1 after sign; 2 integer digits (accepting); 3 leading decimal
/// point, no digit yet; 4 digits with a decimal point (accepting); 5 after
/// the exponent mark; 6 after the exponent sign; 7 exponent digits
/// (accepting); 8 reject (absorbing).
pub open spec fn num_step(s: int, b: u8) -> int {
    if s == 0 {
        if b == 43 || b == 45 {
            1
        } else if is_digit(b) {
            2
        } else if b == 46 {
            3
        } else {
            8
        }
    } else if s == 1 {
        if is_digit(b) {
            2
        } else if b == 46 {
            3
        } else {
            8
        }
    } else if s == 2 {
        if is_digit(b) {
            2
        } else if b == 46 {
            4
        } else if b == 101 || b == 69 {
            5
        } else {
            8
        }
    } else if s == 3 {
        if is_digit(b) {
            4
        } else {
            8
        }
    } else if s == 4 {
        if is_digit(b) {
            4
        } else if b == 101 || b == 69 {
            5
        } else {
            8
        }
    } else if s == 5 {
        if b == 43 || b == 45 {
            6
        } else if is_digit(b) {
            7
        } else {
            8
        }
    } else if s == 6 || s == 7 {
        if is_digit(b) {
            7
        } else {
            8
        }
    } else {
        8
    }
}

/// State of the automaton after reading the whole text.
pub open spec fn num_state(s: Seq<u8>) -> int
    decreases s.len(),
{
    if s.len() == 0 {
        0
    } else {
        num_step(num_state(s.drop_last()), s.last())
    }
}

/// A byte text is numeric when the automaton ends in an accepting state:
/// `[+|-] (digits [. digits] | digits . | . digits) [e|E [+|-] digits]`.
pub open spec fn is_numeric_text(s: Seq<u8>) -> bool {
    num_state(s) == 2 || num_state(s) == 4 || num_state(s) == 7
}

/// The bytes a numeric text can be made of.
pub open spec fn numeric_char(b: u8) -> bool {
    is_digit(b) || b == 43 || b == 45 || b == 46 || b == 101 || b == 69
}

/// A text the automaton has not rejected holds numeric bytes only; in
/// particular a numeric text holds no field separator, no line break and no
/// carriage return.
pub proof fn lemma_numeric_chars(s: Seq<u8>)
    requires
        num_state(s) != 8,
    ensures
        forall|i: int| 0 <= i < s.len() ==> numeric_char(#[trigger] s[i]),
    decreases s.len(),
{
    if s.len() > 0 {
        assert(num_state(s.drop_last()) != 8);
        lemma_numeric_chars(s.drop_last());
        assert(numeric_char(s.last()));
        assert forall|i: int| 0 <= i < s.len() implies numeric_char(#[trigger] s[i]) by {
            if i < s.len() - 1 {
                assert(s[i] == s.drop_last()[i]);
            } else {
                assert(s[i] == s.last());
            }
        }
    }
}

/// A numeric text is never empty.
pub proof fn lemma_numeric_nonempty(s: Seq<u8>)
    requires
        is_numeric_text(s),
    ensures
        s.len() > 0,
{
}

fn num_step_exec(s: u8, b: u8) -> (r: u8)
    requires
        s <= 8,
    ensures
        r as int == num_step(s as int, b),
        r <= 8,
{
    if s == 0 {
        if b == 43 || b == 45 {
            1
        } else if 48 <= b && b <= 57 {
            2
        } else if b == 46 {
            3
        } else {
            8
        }
    } else if s == 1 {
        if 48 <= b && b <= 57 {
            2
        } else if b == 46 {
            3
        } else {
            8
        }
    } else if s == 2 {
        if 48 <= b && b <= 57 {
            2
        } else if b == 46 {
            4
        } else if b == 101 || b == 69 {
            5
        } else {
            8
        }
    } else if s == 3 {
        if 48 <= b && b <= 57 {
            4
        } else {
            8
        }
    } else if s == 4 {
        if 48 <= b && b <= 57 {
            4
        } else if b == 101 || b == 69 {
            5
        } else {
            8
        }
    } else if s == 5 {
        if b == 43 || b == 45 {
            6
        } else if 48 <= b && b <= 57 {
            7
        } else {
            8
        }
    } else if s == 6 || s == 7 {
        if 48 <= b && b <= 57 {
            7
        } else {
            8
        }
    } else {
        8
    }
}

/// Decides membership in the numeric-text grammar.
pub fn check_numeric(s: &Vec<u8>) -> (r: bool)
    ensures
        r == is_numeric_text(s@),
{
    let mut st: u8 = 0;
    let mut i: usize = 0;
    while i < s.len()
        invariant
            i <= s@.len(),
            st <= 8,
            st as int == num_state(s@.subrange(0, i as int)),
        decreases s@.len() - i,
    {
        st = num_step_exec(st, s[i]);
        i = i + 1;
        proof {
            let pre = s@.subrange(0, i as int);
            assert(pre.drop_last() =~= s@.subrange(0, i - 1));
            assert(pre.last() == s@[i - 1]);
        }
    }
    proof {
        assert(s@.subrange(0, s@.len() as int) =~= s@);
    }
    st == 2 || st == 4 || st == 7
}

impl EdgeRecord {
    /// Builds a record after validating the numeric fields; a record with a
    /// non-numeric weight or timestamp is never formed.
    pub fn new(src: Vec<u8>, dest: Vec<u8>, weight: Vec<u8>, timestamp: Vec<u8>) -> (r: Option<
        EdgeRecord,
    >)
        ensures
            match r {
                Some(rec) => rec@ == (RecordView {
                    src: src@,
                    dest: dest@,
                    weight: weight@,
                    timestamp: timestamp@,
                }) && record_wf(rec@),
                None => !(is_numeric_text(weight@) && is_numeric_text(timestamp@)),
            },
            r is Some <==> is_numeric_text(weight@) && is_numeric_text(timestamp@),
    {
        if check_numeric(&weight) && check_numeric(&timestamp) {
            Some(EdgeRecord { src, dest, weight, timestamp })
        } else {
            None
        }
    }
}

} // verus!
