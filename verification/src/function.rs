//! The closed set of functions a formula can name.

use vstd::prelude::*;
use crate::error::EvalError;
use crate::text::{chars_of, find_from, first_index, slice_of, trim, trimmed};

verus! {

/// A function of the library, by its identifier.
#[allow(non_camel_case_types)]
#[derive(Clone, Copy, Debug, PartialEq, Eq, Structural)]
pub enum FUNCTION {
    ADD,
    MOD,
    CONCAT,
}

/// The function whose identifier is exactly `name`, if there is one.
pub open spec fn function_named(name: Seq<char>) -> Option<FUNCTION> {
    if name == seq!['A', 'D', 'D'] {
        Some(FUNCTION::ADD)
    } else if name == seq!['M', 'O', 'D'] {
        Some(FUNCTION::MOD)
    } else if name == seq!['C', 'O', 'N', 'C', 'A', 'T'] {
        Some(FUNCTION::CONCAT)
    } else {
        None
    }
}

/// The part of `s` that stands before its first `(`, or all of `s` where it
/// has none, without the white space around it.
pub open spec fn leading_name(s: Seq<char>) -> Seq<char> {
    trimmed(s.subrange(0, first_index(s, '(')))
}

impl FUNCTION {
    /// The function whose identifier is exactly the characters of `name`.
    pub(crate) fn from_chars(name: &Vec<char>) -> (r: Option<FUNCTION>)
        ensures
            r == function_named(name@),
    {
        let n: usize = name.len();
        if n == 3 && name[0] == 'A' && name[1] == 'D' && name[2] == 'D' {
            assert(name@ =~= seq!['A', 'D', 'D']);
            Some(FUNCTION::ADD)
        } else if n == 3 && name[0] == 'M' && name[1] == 'O' && name[2] == 'D' {
            assert(name@ =~= seq!['M', 'O', 'D']);
            Some(FUNCTION::MOD)
        } else if n == 6 && name[0] == 'C' && name[1] == 'O' && name[2] == 'N' && name[3] == 'C'
            && name[4] == 'A' && name[5] == 'T' {
            assert(name@ =~= seq!['C', 'O', 'N', 'C', 'A', 'T']);
            Some(FUNCTION::CONCAT)
        } else {
            assert(name@ != seq!['A', 'D', 'D']) by {
                if name@ == seq!['A', 'D', 'D'] {
                    assert(seq!['A', 'D', 'D'].len() == 3);
                    assert(seq!['A', 'D', 'D'][0] == 'A');
                    assert(seq!['A', 'D', 'D'][1] == 'D');
                    assert(seq!['A', 'D', 'D'][2] == 'D');
                }
            }
            assert(name@ != seq!['M', 'O', 'D']) by {
                if name@ == seq!['M', 'O', 'D'] {
                    assert(seq!['M', 'O', 'D'].len() == 3);
                    assert(seq!['M', 'O', 'D'][0] == 'M');
                    assert(seq!['M', 'O', 'D'][1] == 'O');
                    assert(seq!['M', 'O', 'D'][2] == 'D');
                }
            }
            assert(name@ != seq!['C', 'O', 'N', 'C', 'A', 'T']) by {
                let t = seq!['C', 'O', 'N', 'C', 'A', 'T'];
                if name@ == t {
                    assert(t.len() == 6);
                    assert(t[0] == 'C' && t[1] == 'O' && t[2] == 'N');
                    assert(t[3] == 'C' && t[4] == 'A' && t[5] == 'T');
                }
            }
            None
        }
    }

    /// The function that the characters of `chars` begin with: the identifier
    /// is what stands before the first `(`, white space around it set aside.
    pub(crate) fn leading(chars: &Vec<char>) -> (r: Option<FUNCTION>)
        ensures
            r == function_named(leading_name(chars@)),
    {
        let open: usize = find_from(chars, '(', 0);
        let head = slice_of(chars, 0, open);
        let name = trim(&head);
        FUNCTION::from_chars(&name)
    }

    /// The function that `value` begins with, or `UnknownFunction` where what
    /// stands before its first `(` is no identifier of the library.
    pub fn starts_with(value: &str) -> (r: Result<FUNCTION, EvalError>)
        ensures
            r == match function_named(leading_name(value@)) {
                Some(f) => Ok::<FUNCTION, EvalError>(f),
                None => Err::<FUNCTION, EvalError>(EvalError::UnknownFunction),
            },
    {
        let chars = chars_of(value);
        match FUNCTION::leading(&chars) {
            Some(f) => Ok(f),
            None => Err(EvalError::UnknownFunction),
        }
    }
}

} // verus!
