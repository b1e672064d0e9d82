use vstd::prelude::*;
use vstd::string::*;
use crate::surface::FrameRect;

verus! {

/// The character of the decimal digit `d`.
pub open spec fn digit_char(d: nat) -> char {
    if d == 0 {
        '0'
    } else if d == 1 {
        '1'
    } else if d == 2 {
        '2'
    } else if d == 3 {
        '3'
    } else if d == 4 {
        '4'
    } else if d == 5 {
        '5'
    } else if d == 6 {
        '6'
    } else if d == 7 {
        '7'
    } else if d == 8 {
        '8'
    } else {
        '9'
    }
}

/// `n` written in decimal, without leading zeros.
pub open spec fn decimal(n: nat) -> Seq<char>
    decreases n,
{
    if n < 10 {
        seq![digit_char(n)]
    } else {
        decimal(n / 10).push(digit_char(n % 10))
    }
}

/// The name of frame `n` (1-based) under a pattern `prefix{n}suffix`.
pub open spec fn frame_name(prefix: Seq<char>, suffix: Seq<char>, n: nat) -> Seq<char> {
    prefix + decimal(n) + suffix
}

fn digit_str(d: usize) -> (r: &'static str)
    requires
        d < 10,
    ensures
        r@ == seq![digit_char(d as nat)],
{
    proof {
        reveal_strlit("0");
        reveal_strlit("1");
        reveal_strlit("2");
        reveal_strlit("3");
        reveal_strlit("4");
        reveal_strlit("5");
        reveal_strlit("6");
        reveal_strlit("7");
        reveal_strlit("8");
        reveal_strlit("9");
    }
    let r = match d {
        0 => "0",
        1 => "1",
        2 => "2",
        3 => "3",
        4 => "4",
        5 => "5",
        6 => "6",
        7 => "7",
        8 => "8",
        _ => "9",
    };
    assert(r@ =~= seq![digit_char(d as nat)]);
    r
}

/// `n` in decimal.
pub fn decimal_string(n: usize) -> (r: String)
    ensures
        r@ == decimal(n as nat),
    decreases n,
{
    if n < 10 {
        String::from_str(digit_str(n))
    } else {
        let mut s = decimal_string(n / 10);
        s.append(digit_str(n % 10));
        assert(s@ =~= decimal(n as nat));
        s
    }
}

/// How frame names are spelled: frame `n` (counted from 1) is named
/// `prefix`, then `n` in decimal, then `suffix`.
pub struct FramePattern {
    pub prefix: String,
    pub suffix: String,
}

impl FramePattern {
    pub fn new(prefix: &str, suffix: &str) -> (r: FramePattern)
        ensures
            r.prefix@ == prefix@,
            r.suffix@ == suffix@,
    {
        FramePattern { prefix: String::from_str(prefix), suffix: String::from_str(suffix) }
    }

    /// The name of frame `n`.
    pub fn name_for(&self, n: usize) -> (r: String)
        ensures
            r@ == frame_name(self.prefix@, self.suffix@, n as nat),
    {
        let mut s = String::from_str(self.prefix.as_str());
        let digits = decimal_string(n);
        s.append(digits.as_str());
        s.append(self.suffix.as_str());
        s
    }
}

/// The frames of a sprite sheet by name. Names are unique; inserting a name
/// that is already there replaces its rectangle.
pub struct FrameAtlas {
    names: Vec<String>,
    rects: Vec<FrameRect>,
}

impl FrameAtlas {
    closed spec fn keys(&self) -> Seq<Seq<char>> {
        Seq::new(self.names@.len(), |i: int| self.names@[i]@)
    }

    closed spec fn slot(&self, k: Seq<char>) -> int {
        choose|i: int| 0 <= i < self.keys().len() && self.keys()[i] == k
    }

    /// Names and rectangles pair up one to one, and no name repeats.
    pub closed spec fn wf(&self) -> bool {
        &&& self.names@.len() == self.rects@.len()
        &&& forall|i: int, j: int|
            0 <= i < self.keys().len() && 0 <= j < self.keys().len() && i != j ==> self.keys()[i]
                != self.keys()[j]
    }

    proof fn lemma_slot(&self, i: int)
        requires
            self.wf(),
            0 <= i < self.keys().len(),
        ensures
            self.slot(self.keys()[i]) == i,
    {
        let k = self.keys()[i];
        let j = self.slot(k);
        assert(0 <= j < self.keys().len() && self.keys()[j] == k);
    }
}

impl View for FrameAtlas {
    type V = Map<Seq<char>, FrameRect>;

    closed spec fn view(&self) -> Map<Seq<char>, FrameRect> {
        Map::new(
            |k: Seq<char>| exists|i: int| 0 <= i < self.keys().len() && self.keys()[i] == k,
            |k: Seq<char>| self.rects@[self.slot(k)],
        )
    }
}

impl FrameAtlas {
    pub fn new() -> (r: FrameAtlas)
        ensures
            r.wf(),
            r@ == Map::<Seq<char>, FrameRect>::empty(),
    {
        let r = FrameAtlas { names: Vec::new(), rects: Vec::new() };
        assert(r@ =~= Map::<Seq<char>, FrameRect>::empty());
        r
    }

    /// The index of `name`, if it is there.
    fn find(&self, name: &str) -> (r: Option<usize>)
        requires
            self.wf(),
        ensures
            r matches Some(i) ==> i < self.keys().len() && self.keys()[i as int] == name@,
            r is None ==> !self@.contains_key(name@),
    {
        let key = String::from_str(name);
        let mut i: usize = 0;
        while i < self.names.len()
            invariant
                self.wf(),
                i <= self.keys().len(),
                forall|j: int| 0 <= j < i ==> self.keys()[j] != name@,
                key@ == name@,
            decreases self.keys().len() - i,
        {
            assert(self.keys()[i as int] == self.names@[i as int]@);
            if self.names[i].eq(&key) {
                return Some(i);
            }
            i = i + 1;
        }
        None
    }

    /// The rectangle of frame `name`.
    pub fn get(&self, name: &str) -> (r: Option<FrameRect>)
        requires
            self.wf(),
        ensures
            r == (if self@.contains_key(name@) {
                Some(self@[name@])
            } else {
                None
            }),
    {
        match self.find(name) {
            Some(i) => {
                proof {
                    self.lemma_slot(i as int);
                }
                Some(self.rects[i])
            },
            None => None,
        }
    }

    /// Adds frame `name`, or replaces its rectangle.
    pub fn insert(&mut self, name: &str, rect: FrameRect)
        requires
            old(self).wf(),
        ensures
            final(self).wf(),
            final(self)@ == old(self)@.insert(name@, rect),
    {
        match self.find(name) {
            Some(i) => {
                self.rects.set(i, rect);
                assert(self.keys() =~= old(self).keys());
                assert forall|k: Seq<char>| #[trigger] self@.contains_key(k) implies self@[k]
                    == old(self)@.insert(name@, rect)[k] by {
                    let j = self.slot(k);
                    old(self).lemma_slot(j);
                }
                assert(self@ =~= old(self)@.insert(name@, rect));
            },
            None => {
                self.names.push(String::from_str(name));
                self.rects.push(rect);
                let ghost n = old(self).keys().len() as int;
                assert(self.keys() =~= old(self).keys().push(name@));
                assert forall|k: Seq<char>| #[trigger] self@.contains_key(k) <==> old(
                    self,
                )@.insert(name@, rect).contains_key(k) by {
                    if old(self)@.contains_key(k) {
                        let j = choose|j: int|
                            0 <= j < old(self).keys().len() && old(self).keys()[j] == k;
                        assert(self.keys()[j] == k);
                    }
                    if k == name@ {
                        assert(self.keys()[n] == k);
                    }
                }
                assert forall|k: Seq<char>| #[trigger] self@.contains_key(k) implies self@[k]
                    == old(self)@.insert(name@, rect)[k] by {
                    let j = self.slot(k);
                    if k == name@ {
                        self.lemma_slot(n);
                    } else {
                        old(self).lemma_slot(j);
                    }
                }
                assert(self@ =~= old(self)@.insert(name@, rect));
            },
        }
    }

    /// How many frames the atlas holds.
    pub fn len(&self) -> (r: usize)
        requires
            self.wf(),
        ensures
            r == self@.len(),
    {
        proof {
            self.lemma_len();
        }
        self.names.len()
    }

    proof fn lemma_len(&self)
        requires
            self.wf(),
        ensures
            self@.len() == self.keys().len(),
    {
        let ks = self.keys();
        assert(self@.dom() =~= ks.to_set());
        ks.unique_seq_to_set();
    }
}

} // verus!
