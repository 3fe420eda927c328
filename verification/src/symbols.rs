//! Identifiers of pattern texts: the interface through which the encoding
//! asks for them, and a table that hands them out in order of registration.
use vstd::prelude::*;

verus! {

/// The identifier of every pattern text, as one interner gives them.
pub type Ids = spec_fn(Seq<char>) -> u16;

/// The source of shape identifiers. One identifier belongs to each pattern
/// text for as long as the value lives; asking twice gives the same answer.
///
/// `ids` is left open by default, so that code which is not verified can
/// implement the trait; it is then taken on trust that `intern` is a function
/// of the pattern alone.
pub trait Interner {
    /// The identifier of every pattern text.
    open spec fn ids(&self) -> Ids {
        arbitrary()
    }

    /// Looks up the identifier of `pattern`.
    fn intern(&self, pattern: &str) -> (id: u16)
        ensures
            id == (self.ids())(pattern@),
    ;
}

/// The largest number of patterns that a [`SymbolTable`] holds. One identifier
/// stays free for the patterns that it does not hold.
pub const MAX_SYMBOLS: usize = 0xFFFF;

/// The place of the first occurrence of `pattern` in `patterns`, or their
/// number where it does not occur.
pub open spec fn position(patterns: Seq<Seq<char>>, pattern: Seq<char>) -> nat
    decreases patterns.len(),
{
    if patterns.len() == 0 || patterns[0] == pattern {
        0
    } else {
        1 + position(patterns.drop_first(), pattern)
    }
}

/// `position` is the least index at which the pattern stands.
pub proof fn lemma_position(patterns: Seq<Seq<char>>, pattern: Seq<char>)
    ensures
        position(patterns, pattern) <= patterns.len(),
        position(patterns, pattern) < patterns.len() ==> patterns[position(patterns, pattern) as int]
            == pattern,
        forall|i: int| 0 <= i < position(patterns, pattern) ==> patterns[i] != pattern,
        patterns.contains(pattern) <==> position(patterns, pattern) < patterns.len(),
    decreases patterns.len(),
{
    if patterns.len() == 0 || patterns[0] == pattern {
    } else {
        let rest = patterns.drop_first();
        lemma_position(rest, pattern);
        let at = position(rest, pattern) as int;
        assert forall|i: int| 0 <= i < at + 1 implies patterns[i] != pattern by {
            if i > 0 {
                assert(rest[i - 1] == patterns[i]);
            }
        }
        if at < rest.len() {
            assert(rest[at] == patterns[at + 1]);
        }
        if patterns.contains(pattern) {
            let i = choose|i: int| 0 <= i < patterns.len() && patterns[i] == pattern;
            assert(rest[i - 1] == pattern);
        }
    }
}

/// A table that numbers patterns in the order in which they were registered:
/// the first gets 0, the next 1, and so on.
pub struct SymbolTable {
    patterns: Vec<String>,
}

impl View for SymbolTable {
    type V = Seq<Seq<char>>;

    /// The registered patterns, oldest first.
    closed spec fn view(&self) -> Seq<Seq<char>> {
        self.patterns@.map_values(|text: String| text@)
    }
}

impl SymbolTable {
    #[verifier::type_invariant]
    spec fn within_limit(self) -> bool {
        self.patterns.len() <= MAX_SYMBOLS
    }

    /// Whether `pattern` has been registered.
    pub open spec fn knows(&self, pattern: Seq<char>) -> bool {
        self@.contains(pattern)
    }

    /// The identifier of `pattern`: its place in the order of registration. A
    /// pattern that was never registered has the identifier that the next
    /// registration would hand out.
    pub open spec fn id_of(&self, pattern: Seq<char>) -> u16 {
        position(self@, pattern) as u16
    }

    /// An empty table.
    pub fn new() -> (table: Self)
        ensures
            table@ == Seq::<Seq<char>>::empty(),
    {
        let table = SymbolTable { patterns: Vec::new() };
        assert(table@ =~= Seq::<Seq<char>>::empty());
        table
    }

    /// The number of registered patterns.
    pub fn len(&self) -> (n: usize)
        ensures
            n == self@.len(),
            n <= MAX_SYMBOLS,
    {
        proof {
            use_type_invariant(self);
        }
        self.patterns.len()
    }

    /// The place of `pattern` among the registered patterns, or their number.
    fn find(&self, pattern: &str) -> (at: usize)
        ensures
            at == position(self@, pattern@),
            at <= self@.len() <= MAX_SYMBOLS,
    {
        let wanted = pattern.to_owned();
        let mut i: usize = 0;
        while i < self.patterns.len()
            invariant
                i <= self.patterns.len(),
                wanted@ == pattern@,
                forall|j: int| 0 <= j < i ==> self@[j] != pattern@,
            decreases self.patterns.len() - i,
        {
            if self.patterns[i] == wanted {
                proof {
                    use_type_invariant(self);
                    lemma_position(self@, pattern@);
                    assert(self@[i as int] == pattern@);
                }
                return i;
            }
            i = i + 1;
        }
        proof {
            use_type_invariant(self);
            lemma_position(self@, pattern@);
        }
        i
    }

    /// Registers `pattern` unless it is known, and returns its identifier.
    /// A full table takes no new pattern and then returns `None`.
    pub fn register(&mut self, pattern: &str) -> (id: Option<u16>)
        ensures
            id is None <==> !old(self).knows(pattern@) && old(self)@.len() == MAX_SYMBOLS,
            id is Some ==> id->0 == old(self).id_of(pattern@),
            final(self)@ == if id is Some && !old(self).knows(pattern@) {
                old(self)@.push(pattern@)
            } else {
                old(self)@
            },
    {
        proof {
            lemma_position(self@, pattern@);
        }
        let at = self.find(pattern);
        if at < self.patterns.len() {
            Some(at as u16)
        } else if at == MAX_SYMBOLS {
            None
        } else {
            let ghost before = self@;
            let mut patterns: Vec<String> = Vec::new();
            core::mem::swap(&mut self.patterns, &mut patterns);
            patterns.push(pattern.to_owned());
            self.patterns = patterns;
            assert(self@ =~= before.push(pattern@));
            Some(at as u16)
        }
    }
}

/// A pattern keeps its identifier when another pattern is registered, and
/// the pattern that is registered gets the identifier that was foretold.
pub proof fn lemma_registration_keeps_ids(
    patterns: Seq<Seq<char>>,
    added: Seq<char>,
    pattern: Seq<char>,
)
    requires
        patterns.contains(pattern) || pattern == added,
    ensures
        position(patterns.push(added), pattern) == position(patterns, pattern),
    decreases patterns.len(),
{
    if patterns.len() == 0 {
        assert(!patterns.contains(pattern));
    } else if patterns[0] == pattern {
        assert(patterns.push(added)[0] == pattern);
    } else {
        let rest = patterns.drop_first();
        assert(patterns.push(added).drop_first() =~= rest.push(added));
        assert(patterns.push(added)[0] == patterns[0]);
        if patterns.contains(pattern) {
            let i = choose|i: int| 0 <= i < patterns.len() && patterns[i] == pattern;
            assert(rest[i - 1] == pattern);
        }
        lemma_registration_keeps_ids(rest, added, pattern);
    }
}

/// Two registered patterns with the same identifier are the same pattern.
pub proof fn lemma_ids_tell_patterns_apart(table: SymbolTable, a: Seq<char>, b: Seq<char>)
    requires
        table.knows(a),
        table.knows(b),
        table@.len() <= MAX_SYMBOLS,
        table.id_of(a) == table.id_of(b),
    ensures
        a == b,
{
    lemma_position(table@, a);
    lemma_position(table@, b);
}

impl Interner for SymbolTable {
    open spec fn ids(&self) -> Ids {
        |pattern: Seq<char>| self.id_of(pattern)
    }

    fn intern(&self, pattern: &str) -> (id: u16) {
        self.find(pattern) as u16
    }
}

} // verus!
