use vstd::prelude::*;
use vstd::string::StrSliceExecFns;

verus! {

/// The fixed alphabet of class names, 'A' through 'Z'.
pub open spec fn latin_seq() -> Seq<char> {
    seq![
        'A', 'B', 'C', 'D', 'E', 'F', 'G', 'H', 'I', 'J', 'K', 'L', 'M',
        'N', 'O', 'P', 'Q', 'R', 'S', 'T', 'U', 'V', 'W', 'X', 'Y', 'Z',
    ]
}

/// No class name occurs twice in the alphabet.
pub open spec fn distinct(alpha: Seq<char>) -> bool {
    forall|i: int, j: int| 0 <= i < j < alpha.len() ==> alpha[i] != alpha[j]
}

/// The label of a class name: the position of its single character in the alphabet.
pub open spec fn label_spec(alpha: Seq<char>, name: Seq<char>) -> Option<int> {
    if name.len() == 1 && alpha.contains(name[0]) {
        Some(choose|i: int| 0 <= i < alpha.len() && alpha[i] == name[0])
    } else {
        None
    }
}

/// Maps single-character class names to integer labels by their position in an alphabet.
pub struct LabelMap {
    pub alphabet: Vec<char>,
}

impl LabelMap {
    pub open spec fn wf(&self) -> bool {
        distinct(self.alphabet@)
    }

    /// The map of the letters 'A'..'Z' to 0..25.
    pub fn latin() -> (r: LabelMap)
        ensures
            r.alphabet@ == latin_seq(),
            r.wf(),
    {
        let mut v: Vec<char> = Vec::new();
        v.push('A'); v.push('B'); v.push('C'); v.push('D'); v.push('E'); v.push('F');
        v.push('G'); v.push('H'); v.push('I'); v.push('J'); v.push('K'); v.push('L');
        v.push('M'); v.push('N'); v.push('O'); v.push('P'); v.push('Q'); v.push('R');
        v.push('S'); v.push('T'); v.push('U'); v.push('V'); v.push('W'); v.push('X');
        v.push('Y'); v.push('Z');
        assert(v@ =~= latin_seq());
        LabelMap { alphabet: v }
    }

    /// Number of classes.
    pub fn len(&self) -> (r: usize)
        ensures
            r == self.alphabet@.len(),
    {
        self.alphabet.len()
    }

    /// The label of `name`, or `None` when it is not exactly one character of the alphabet.
    pub fn get(&self, name: &str) -> (r: Option<usize>)
        requires
            self.wf(),
        ensures
            match label_spec(self.alphabet@, name@) {
                Some(i) => r == Some(i as usize),
                None => r.is_none(),
            },
    {
        if name.unicode_len() != 1 {
            return None;
        }
        let c = name.get_char(0);
        let mut i: usize = 0;
        while i < self.alphabet.len()
            invariant
                0 <= i <= self.alphabet@.len(),
                c == name@[0],
                name@.len() == 1,
                self.wf(),
                forall|k: int| 0 <= k < i ==> self.alphabet@[k] != c,
            decreases self.alphabet@.len() - i,
        {
            if self.alphabet[i] == c {
                assert(self.alphabet@.contains(c));
                let ghost j = choose|j: int| 0 <= j < self.alphabet@.len() && self.alphabet@[j] == c;
                assert(j == i as int);
                return Some(i);
            }
            i += 1;
        }
        assert(!self.alphabet@.contains(c));
        None
    }
}

/// The labels of the fixed alphabet follow its letters: the `i`-th letter has label `i`,
/// whatever else holds.
pub proof fn lemma_latin_labels(i: int)
    requires
        0 <= i < 26,
    ensures
        label_spec(latin_seq(), seq![latin_seq()[i]]) == Some(i),
{
    let a = latin_seq();
    let s = seq![a[i]];
    assert(s[0] == a[i]);
    assert(a.contains(a[i]));
    let j = choose|j: int| 0 <= j < a.len() && a[j] == s[0];
    assert(distinct(a)) by {
        assert forall|x: int, y: int| 0 <= x < y < a.len() implies a[x] != a[y] by {
            assert(a[x] != a[y]);
        }
    }
}

} // verus!
