//! Decimal fractions. The library holds one by the bit pattern of its
//! single-precision binary form and never computes on it: what it needs to
//! know of such numbers it looks up in a table of answered questions, and
//! where the table has no answer it hands the question back to its caller.

use vstd::prelude::*;

verus! {

/// A question on decimal fractions.
#[derive(Debug, PartialEq)]
pub enum FloatQuery {
    /// The number that a decimal literal writes.
    Read(String),
    /// The number equal to an integer.
    Widen(i32),
    /// The integer part of a number.
    Narrow(u32),
    /// The sum of two numbers.
    Sum(u32, u32),
    /// A number written with a given count of digits after the point.
    Render(u32, usize),
}

/// The mathematical content of a `FloatQuery`.
pub enum FloatQueryView {
    Read(Seq<char>),
    Widen(i32),
    Narrow(u32),
    Sum(u32, u32),
    Render(u32, usize),
}

impl View for FloatQuery {
    type V = FloatQueryView;

    open spec fn view(&self) -> FloatQueryView {
        match self {
            FloatQuery::Read(t) => FloatQueryView::Read(t@),
            FloatQuery::Widen(i) => FloatQueryView::Widen(*i),
            FloatQuery::Narrow(b) => FloatQueryView::Narrow(*b),
            FloatQuery::Sum(a, b) => FloatQueryView::Sum(*a, *b),
            FloatQuery::Render(b, p) => FloatQueryView::Render(*b, *p),
        }
    }
}

/// The answer to a question: a number, an integer or a text.
#[derive(Debug, PartialEq)]
pub enum FloatAnswer {
    Bits(u32),
    Whole(i32),
    Text(String),
}

/// The mathematical content of a `FloatAnswer`.
pub enum FloatAnswerView {
    Bits(u32),
    Whole(i32),
    Text(Seq<char>),
}

impl View for FloatAnswer {
    type V = FloatAnswerView;

    open spec fn view(&self) -> FloatAnswerView {
        match self {
            FloatAnswer::Bits(b) => FloatAnswerView::Bits(*b),
            FloatAnswer::Whole(i) => FloatAnswerView::Whole(*i),
            FloatAnswer::Text(t) => FloatAnswerView::Text(t@),
        }
    }
}

/// A question with its answer.
#[derive(Debug, PartialEq)]
pub struct FloatFact {
    pub query: FloatQuery,
    pub answer: FloatAnswer,
}

/// The mathematical content of a `FloatFact`.
pub struct FloatFactView {
    pub query: FloatQueryView,
    pub answer: FloatAnswerView,
}

impl View for FloatFact {
    type V = FloatFactView;

    open spec fn view(&self) -> FloatFactView {
        FloatFactView { query: self.query@, answer: self.answer@ }
    }
}

/// The answers known so far, oldest first.
#[derive(Debug, PartialEq)]
pub struct FloatTable {
    pub facts: Vec<FloatFact>,
}

impl View for FloatTable {
    type V = Seq<FloatFactView>;

    open spec fn view(&self) -> Seq<FloatFactView> {
        Seq::new(self.facts.len() as nat, |i: int| self.facts[i]@)
    }
}

/// The answer of the first fact at or after index `from` that answers `query`.
pub open spec fn answer_from(facts: Seq<FloatFactView>, query: FloatQueryView, from: int) -> Option<
    FloatAnswerView,
>
    decreases facts.len() - from,
{
    if from < 0 || from >= facts.len() {
        None
    } else if facts[from].query == query {
        Some(facts[from].answer)
    } else {
        answer_from(facts, query, from + 1)
    }
}

/// The answer that `facts` holds to `query`: that of the oldest fact on it.
pub open spec fn answer_of(facts: Seq<FloatFactView>, query: FloatQueryView) -> Option<FloatAnswerView> {
    answer_from(facts, query, 0)
}

/// The number that `facts` gives in answer to `query`.
pub open spec fn bits_of(facts: Seq<FloatFactView>, query: FloatQueryView) -> Option<u32> {
    match answer_of(facts, query) {
        Some(FloatAnswerView::Bits(b)) => Some(b),
        _ => None,
    }
}

/// The integer that `facts` gives in answer to `query`.
pub open spec fn whole_of(facts: Seq<FloatFactView>, query: FloatQueryView) -> Option<i32> {
    match answer_of(facts, query) {
        Some(FloatAnswerView::Whole(i)) => Some(i),
        _ => None,
    }
}

/// The text that `facts` gives in answer to `query`.
pub open spec fn text_of(facts: Seq<FloatFactView>, query: FloatQueryView) -> Option<Seq<char>> {
    match answer_of(facts, query) {
        Some(FloatAnswerView::Text(t)) => Some(t),
        _ => None,
    }
}

impl Clone for FloatQuery {
    fn clone(&self) -> (r: FloatQuery)
        ensures
            r@ == self@,
    {
        match self {
            FloatQuery::Read(text) => FloatQuery::Read(text.clone()),
            FloatQuery::Widen(whole) => FloatQuery::Widen(*whole),
            FloatQuery::Narrow(bits) => FloatQuery::Narrow(*bits),
            FloatQuery::Sum(left, right) => FloatQuery::Sum(*left, *right),
            FloatQuery::Render(bits, precision) => FloatQuery::Render(*bits, *precision),
        }
    }
}

impl Clone for FloatAnswer {
    fn clone(&self) -> (r: FloatAnswer)
        ensures
            r@ == self@,
    {
        match self {
            FloatAnswer::Bits(bits) => FloatAnswer::Bits(*bits),
            FloatAnswer::Whole(whole) => FloatAnswer::Whole(*whole),
            FloatAnswer::Text(text) => FloatAnswer::Text(text.clone()),
        }
    }
}

impl Clone for FloatFact {
    fn clone(&self) -> (r: FloatFact)
        ensures
            r@ == self@,
    {
        FloatFact { query: self.query.clone(), answer: self.answer.clone() }
    }
}

impl Clone for FloatTable {
    fn clone(&self) -> (r: FloatTable)
        ensures
            r@ == self@,
    {
        let mut facts: Vec<FloatFact> = Vec::new();
        let mut i: usize = 0;
        while i < self.facts.len()
            invariant
                i <= self.facts.len(),
                facts.len() == i,
                forall|j: int| 0 <= j < i ==> facts[j]@ == self.facts[j]@,
            decreases self.facts.len() - i,
        {
            facts.push(self.facts[i].clone());
            i += 1;
        }
        let r = FloatTable { facts };
        assert(r@ =~= self@);
        r
    }
}

impl FloatQuery {
    /// Whether two questions are the same.
    pub fn same(&self, other: &FloatQuery) -> (r: bool)
        ensures
            r == (self@ == other@),
    {
        match (self, other) {
            (FloatQuery::Read(s), FloatQuery::Read(t)) => *s == *t,
            (FloatQuery::Widen(i), FloatQuery::Widen(j)) => *i == *j,
            (FloatQuery::Narrow(a), FloatQuery::Narrow(b)) => *a == *b,
            (FloatQuery::Sum(a, b), FloatQuery::Sum(c, d)) => *a == *c && *b == *d,
            (FloatQuery::Render(a, p), FloatQuery::Render(b, q)) => *a == *b && *p == *q,
            _ => false,
        }
    }
}

impl FloatTable {
    /// A table without facts.
    pub fn new() -> (r: FloatTable)
        ensures
            r@ == Seq::<FloatFactView>::empty(),
    {
        let r = FloatTable { facts: Vec::new() };
        assert(r@ =~= Seq::<FloatFactView>::empty());
        r
    }

    /// Adds `fact` as the newest of the table.
    pub fn record(&mut self, fact: FloatFact)
        ensures
            final(self)@ == old(self)@.push(fact@),
    {
        self.facts.push(fact);
        assert(self@ =~= old(self)@.push(fact@));
    }

    /// The answer that the table holds to `query`.
    pub fn answer(&self, query: &FloatQuery) -> (r: Option<&FloatAnswer>)
        ensures
            match r {
                Some(a) => answer_of(self@, query@) == Some(a@),
                None => answer_of(self@, query@) is None,
            },
    {
        let mut i: usize = 0;
        while i < self.facts.len()
            invariant
                i <= self.facts.len(),
                answer_of(self@, query@) == answer_from(self@, query@, i as int),
            decreases self.facts.len() - i,
        {
            if self.facts[i].query.same(query) {
                return Some(&self.facts[i].answer);
            }
            i += 1;
        }
        None
    }

    /// The number that answers `query`, or the query back where the table
    /// holds no number for it.
    pub fn bits(&self, query: FloatQuery) -> (r: Result<u32, FloatQuery>)
        ensures
            match r {
                Ok(b) => bits_of(self@, query@) == Some(b),
                Err(q) => bits_of(self@, query@) is None && q@ == query@,
            },
    {
        match self.answer(&query) {
            Some(FloatAnswer::Bits(b)) => Ok(*b),
            _ => Err(query),
        }
    }

    /// The integer that answers `query`, or the query back.
    pub fn whole(&self, query: FloatQuery) -> (r: Result<i32, FloatQuery>)
        ensures
            match r {
                Ok(i) => whole_of(self@, query@) == Some(i),
                Err(q) => whole_of(self@, query@) is None && q@ == query@,
            },
    {
        match self.answer(&query) {
            Some(FloatAnswer::Whole(i)) => Ok(*i),
            _ => Err(query),
        }
    }

    /// The text that answers `query`, or the query back.
    pub fn text(&self, query: FloatQuery) -> (r: Result<String, FloatQuery>)
        ensures
            match r {
                Ok(t) => text_of(self@, query@) == Some(t@),
                Err(q) => text_of(self@, query@) is None && q@ == query@,
            },
    {
        match self.answer(&query) {
            Some(FloatAnswer::Text(t)) => Ok(t.clone()),
            _ => Err(query),
        }
    }
}

} // verus!
