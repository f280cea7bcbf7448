use vstd::pervasive::VecAdditionalExecFns;
use vstd::prelude::*;

verus! {

/// Texts under 16-bit numbers.
///
/// The view is the map from each number to the text under it.
pub struct NumberMap {
    numbers: Vec<u16>,
    texts: Vec<String>,
}

/// The map that lists of numbers and of texts stand for, where the numbers
/// are distinct: each number goes to the text at its own place.
spec fn spec_map_of(numbers: Seq<u16>, texts: Seq<String>) -> Map<u16, Seq<char>> {
    Map::new(|n: u16| numbers.contains(n), |n: u16| texts[numbers.index_of(n)]@)
}

/// Among distinct numbers, each is found at its own place.
proof fn lemma_index_of(numbers: Seq<u16>, i: int)
    requires
        0 <= i < numbers.len(),
        forall|a: int, b: int| 0 <= a < b < numbers.len() ==> numbers[a] != numbers[b],
    ensures
        numbers.contains(numbers[i]),
        numbers.index_of(numbers[i]) == i,
{
    let j = numbers.index_of(numbers[i]);
    assert(0 <= j < numbers.len() && numbers[j] == numbers[i]);
}

impl View for NumberMap {
    type V = Map<u16, Seq<char>>;

    closed spec fn view(&self) -> Map<u16, Seq<char>> {
        spec_map_of(self.numbers@, self.texts@)
    }
}

impl NumberMap {
    #[verifier::type_invariant]
    spec fn well_formed(&self) -> bool {
        &&& self.numbers@.len() == self.texts@.len()
        &&& forall|a: int, b: int|
            0 <= a < b < self.numbers@.len() ==> self.numbers@[a] != self.numbers@[b]
    }

    /// Takes the numbers and the texts out and leaves the map empty.
    fn take_apart(&mut self) -> (r: (Vec<u16>, Vec<String>))
        ensures
            r.0 == old(self).numbers,
            r.1 == old(self).texts,
            r.0@.len() == r.1@.len(),
            forall|a: int, b: int| 0 <= a < b < r.0@.len() ==> r.0@[a] != r.0@[b],
    {
        proof {
            use_type_invariant(&*self);
        }
        let mut taken = NumberMap { numbers: Vec::new(), texts: Vec::new() };
        core::mem::swap(self, &mut taken);
        let NumberMap { numbers, texts } = taken;
        (numbers, texts)
    }

    /// The place of `number`, if it has a text.
    fn find(&self, number: u16) -> (r: Option<usize>)
        ensures
            r is Some <==> self.numbers@.contains(number),
            r is Some ==> r->0 < self.numbers@.len() && self.numbers@[r->0 as int] == number
                && self.numbers@.index_of(number) == r->0,
    {
        proof {
            use_type_invariant(self);
        }
        let mut i: usize = 0;
        while i < self.numbers.len()
            invariant
                i <= self.numbers@.len(),
                forall|a: int, b: int|
                    0 <= a < b < self.numbers@.len() ==> self.numbers@[a] != self.numbers@[b],
                forall|j: int| 0 <= j < i ==> self.numbers@[j] != number,
            decreases self.numbers@.len() - i,
        {
            if self.numbers[i] == number {
                proof {
                    lemma_index_of(self.numbers@, i as int);
                }
                return Some(i);
            }
            i += 1;
        }
        None
    }

    /// A map without entries.
    pub fn new() -> (r: NumberMap)
        ensures
            r@ == Map::<u16, Seq<char>>::empty(),
    {
        let r = NumberMap { numbers: Vec::new(), texts: Vec::new() };
        assert(r@ =~= Map::<u16, Seq<char>>::empty());
        r
    }

    /// Whether `number` has a text.
    pub fn contains_key(&self, number: u16) -> (r: bool)
        ensures
            r == self@.contains_key(number),
    {
        self.find(number).is_some()
    }

    /// The text under `number`, if any.
    pub fn get(&self, number: u16) -> (r: Option<&String>)
        ensures
            r is Some <==> self@.contains_key(number),
            r is Some ==> r->0@ == self@[number],
    {
        proof {
            use_type_invariant(self);
        }
        match self.find(number) {
            Some(i) => Some(&self.texts[i]),
            None => None,
        }
    }

    /// Puts `text` under `number`, in place of what was there.
    pub fn insert(&mut self, number: u16, text: String)
        ensures
            final(self)@ == old(self)@.insert(number, text@),
    {
        let found = self.find(number);
        let (mut numbers, mut texts) = self.take_apart();
        let ghost at: int;
        match found {
            Some(i) => {
                texts.set(i, text);
                proof {
                    at = i as int;
                }
            },
            None => {
                numbers.push(number);
                texts.push(text);
                proof {
                    at = numbers@.len() - 1;
                }
            },
        }
        *self = NumberMap { numbers, texts };
        proof {
            let before_numbers = old(self).numbers@;
            let before_texts = old(self).texts@;
            lemma_index_of(self.numbers@, at);
            assert forall|n: u16| #[trigger]
                self@.contains_key(n) == old(self)@.insert(number, text@).contains_key(n) by {
                if n != number && before_numbers.contains(n) {
                    let j = before_numbers.index_of(n);
                    assert(self.numbers@[j] == n);
                }
                if n != number && self.numbers@.contains(n) {
                    let j = self.numbers@.index_of(n);
                    assert(before_numbers[j] == n);
                }
            }
            assert forall|n: u16| #[trigger] self@.contains_key(n) implies self@[n] == old(
                self,
            )@.insert(number, text@)[n] by {
                if n != number {
                    let j = self.numbers@.index_of(n);
                    assert(before_numbers[j] == n);
                    lemma_index_of(before_numbers, j);
                }
            }
            assert(self@ =~= old(self)@.insert(number, text@));
        }
    }

    /// Takes out `number` and its text.
    pub fn remove(&mut self, number: u16)
        ensures
            final(self)@ == old(self)@.remove(number),
    {
        let found = self.find(number);
        match found {
            Some(i) => {
                let (mut numbers, mut texts) = self.take_apart();
                numbers.remove(i);
                texts.remove(i);
                *self = NumberMap { numbers, texts };
                proof {
                    let before_numbers = old(self).numbers@;
                    let after_numbers = self.numbers@;
                    assert forall|n: u16| #[trigger]
                        self@.contains_key(n) == old(self)@.remove(number).contains_key(n) by {
                        if n != number && before_numbers.contains(n) {
                            let j = before_numbers.index_of(n);
                            if j < i {
                                assert(after_numbers[j] == n);
                            } else {
                                assert(after_numbers[j - 1] == n);
                            }
                        }
                        if after_numbers.contains(n) {
                            let j = after_numbers.index_of(n);
                            if j < i {
                                assert(before_numbers[j] == n);
                            } else {
                                assert(before_numbers[j + 1] == n);
                            }
                        }
                    }
                    assert forall|n: u16| #[trigger] self@.contains_key(n) implies self@[n] == old(
                        self,
                    )@.remove(number)[n] by {
                        let j = after_numbers.index_of(n);
                        if j < i {
                            assert(before_numbers[j] == n);
                            lemma_index_of(before_numbers, j);
                        } else {
                            assert(before_numbers[j + 1] == n);
                            lemma_index_of(before_numbers, j + 1);
                        }
                    }
                    assert(self@ =~= old(self)@.remove(number));
                }
            },
            None => {
                assert(self@ =~= old(self)@.remove(number));
            },
        }
    }

    /// Takes out every number and its text.
    pub fn clear(&mut self)
        ensures
            final(self)@ == Map::<u16, Seq<char>>::empty(),
    {
        *self = NumberMap::new();
    }
}

} // verus!
