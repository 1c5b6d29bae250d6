use vstd::prelude::*;

verus! {

/// The first address given to a variable.
pub const FIRST_VARIABLE: u32 = 16;

/// The address paired with `name` in the first pair that holds it, searching from `i` on.
pub open spec fn find_from(s: Seq<(Seq<char>, u16)>, name: Seq<char>, i: int) -> Option<u16>
    decreases s.len() - i,
{
    if i < 0 || i >= s.len() {
        None
    } else if s[i].0 == name {
        Some(s[i].1)
    } else {
        find_from(s, name, i + 1)
    }
}

/// The address paired with `name` in the first pair that holds it.
pub open spec fn find(s: Seq<(Seq<char>, u16)>, name: Seq<char>) -> Option<u16> {
    find_from(s, name, 0)
}

/// The architecture's predefined symbols and their addresses.
pub open spec fn predefined_symbols() -> Seq<(Seq<char>, u16)> {
    seq![
        ("SP"@, 0u16),
        ("LCL"@, 1u16),
        ("ARG"@, 2u16),
        ("THIS"@, 3u16),
        ("THAT"@, 4u16),
        ("R0"@, 0u16),
        ("R1"@, 1u16),
        ("R2"@, 2u16),
        ("R3"@, 3u16),
        ("R4"@, 4u16),
        ("R5"@, 5u16),
        ("R6"@, 6u16),
        ("R7"@, 7u16),
        ("R8"@, 8u16),
        ("R9"@, 9u16),
        ("R10"@, 10u16),
        ("R11"@, 11u16),
        ("R12"@, 12u16),
        ("R13"@, 13u16),
        ("R14"@, 14u16),
        ("R15"@, 15u16),
        ("SCREEN"@, 16384u16),
        ("KBD"@, 24576u16),
    ]
}

/// The contents of a symbol table: labels and variables in the order they were recorded,
/// and the address the next new variable gets.
pub struct TableModel {
    pub labels: Seq<(Seq<char>, u16)>,
    pub variables: Seq<(Seq<char>, u16)>,
    pub next_variable: nat,
}

/// A table as it is before any label or variable is recorded.
pub open spec fn fresh_table() -> TableModel {
    TableModel { labels: Seq::empty(), variables: Seq::empty(), next_variable: FIRST_VARIABLE as nat }
}

/// The address of `name`: predefined, else label, else variable; `None` if it has none yet.
pub open spec fn lookup(t: TableModel, name: Seq<char>) -> Option<u16> {
    match find(predefined_symbols(), name) {
        Some(a) => Some(a),
        None => match find(t.labels, name) {
            Some(a) => Some(a),
            None => find(t.variables, name),
        },
    }
}

/// The table after recording label `name` at `address`; a label already recorded stays.
pub open spec fn with_label(t: TableModel, name: Seq<char>, address: u16) -> TableModel {
    if find(t.labels, name) is Some {
        t
    } else {
        TableModel { labels: t.labels.push((name, address)), ..t }
    }
}

/// Whether resolving `name` can be done within 16-bit addresses.
pub open spec fn resolvable(t: TableModel, name: Seq<char>) -> bool {
    lookup(t, name) is Some || t.next_variable <= u16::MAX
}

/// The table after resolving `name`, and its address: a name without one becomes the
/// next variable.
pub open spec fn resolved(t: TableModel, name: Seq<char>) -> (TableModel, u16) {
    match lookup(t, name) {
        Some(a) => (t, a),
        None => (
            TableModel {
                variables: t.variables.push((name, t.next_variable as u16)),
                next_variable: t.next_variable + 1,
                ..t
            },
            t.next_variable as u16,
        ),
    }
}

pub open spec fn pairs_view(v: Seq<(String, u16)>) -> Seq<(Seq<char>, u16)> {
    v.map_values(|p: (String, u16)| (p.0@, p.1))
}

pub proof fn lemma_find_push(s: Seq<(Seq<char>, u16)>, name: Seq<char>, a: u16, other: Seq<char>)
    requires
        find(s, name) is None,
    ensures
        find(s.push((name, a)), name) == Some(a),
        other != name ==> find(s.push((name, a)), other) == find(s, other),
{
    lemma_find_from_push(s, name, a, other, 0);
}

proof fn lemma_find_from_push(
    s: Seq<(Seq<char>, u16)>,
    name: Seq<char>,
    a: u16,
    other: Seq<char>,
    i: int,
)
    requires
        0 <= i <= s.len(),
        find_from(s, name, i) is None,
    ensures
        find_from(s.push((name, a)), name, i) == Some(a),
        other != name ==> find_from(s.push((name, a)), other, i) == find_from(s, other, i),
    decreases s.len() - i,
{
    let t = s.push((name, a));
    if i < s.len() {
        assert(t[i] == s[i]);
        lemma_find_from_push(s, name, a, other, i + 1);
    } else {
        assert(t[i] == (name, a));
        assert(find_from(t, other, i + 1) == None::<u16>);
    }
}

/// Maps names to addresses for one assembly run: the predefined symbols, the labels of
/// the first pass and the variables found in the second.
pub struct SymbolTable {
    predefined: Vec<(String, u16)>,
    labels: Vec<(String, u16)>,
    variables: Vec<(String, u16)>,
    next_variable: u32,
}

impl View for SymbolTable {
    type V = TableModel;

    closed spec fn view(&self) -> TableModel {
        TableModel {
            labels: pairs_view(self.labels@),
            variables: pairs_view(self.variables@),
            next_variable: self.next_variable as nat,
        }
    }
}

impl SymbolTable {
    pub closed spec fn wf(&self) -> bool {
        &&& pairs_view(self.predefined@) == predefined_symbols()
        &&& FIRST_VARIABLE <= self.next_variable <= u16::MAX as u32 + 1
    }

    pub fn new() -> (r: SymbolTable)
        ensures
            r.wf(),
            r@ == fresh_table(),
    {
        let mut predefined: Vec<(String, u16)> = Vec::new();
        predefined.push((String::from_str("SP"), 0x0));
        predefined.push((String::from_str("LCL"), 0x1));
        predefined.push((String::from_str("ARG"), 0x2));
        predefined.push((String::from_str("THIS"), 0x3));
        predefined.push((String::from_str("THAT"), 0x4));
        predefined.push((String::from_str("R0"), 0x0));
        predefined.push((String::from_str("R1"), 0x1));
        predefined.push((String::from_str("R2"), 0x2));
        predefined.push((String::from_str("R3"), 0x3));
        predefined.push((String::from_str("R4"), 0x4));
        predefined.push((String::from_str("R5"), 0x5));
        predefined.push((String::from_str("R6"), 0x6));
        predefined.push((String::from_str("R7"), 0x7));
        predefined.push((String::from_str("R8"), 0x8));
        predefined.push((String::from_str("R9"), 0x9));
        predefined.push((String::from_str("R10"), 0xA));
        predefined.push((String::from_str("R11"), 0xB));
        predefined.push((String::from_str("R12"), 0xC));
        predefined.push((String::from_str("R13"), 0xD));
        predefined.push((String::from_str("R14"), 0xE));
        predefined.push((String::from_str("R15"), 0xF));
        predefined.push((String::from_str("SCREEN"), 0x4000));
        predefined.push((String::from_str("KBD"), 0x6000));
        let r = SymbolTable {
            predefined: predefined,
            labels: Vec::new(),
            variables: Vec::new(),
            next_variable: FIRST_VARIABLE,
        };
        assert(pairs_view(r.predefined@) =~= predefined_symbols());
        assert(pairs_view(r.labels@) =~= Seq::empty());
        assert(pairs_view(r.variables@) =~= Seq::empty());
        r
    }

    /// The address paired with `name` in `pairs`, if any.
    fn find_in(pairs: &Vec<(String, u16)>, name: &String) -> (r: Option<u16>)
        ensures
            r == find(pairs_view(pairs@), name@),
    {
        let ghost s = pairs_view(pairs@);
        let mut i: usize = 0;
        while i < pairs.len()
            invariant
                i <= pairs@.len(),
                s == pairs_view(pairs@),
                find(s, name@) == find_from(s, name@, i as int),
            decreases pairs@.len() - i,
        {
            assert(s[i as int] == (pairs@[i as int].0@, pairs@[i as int].1));
            if pairs[i].0 == *name {
                return Some(pairs[i].1);
            }
            i += 1;
        }
        None
    }

    fn lookup_string(&self, name: &String) -> (r: Option<u16>)
        requires
            self.wf(),
        ensures
            r == lookup(self@, name@),
    {
        match SymbolTable::find_in(&self.predefined, name) {
            Some(a) => Some(a),
            None => match SymbolTable::find_in(&self.labels, name) {
                Some(a) => Some(a),
                None => SymbolTable::find_in(&self.variables, name),
            },
        }
    }

    /// The address `symbol` has now, without recording anything.
    pub fn lookup(&self, symbol: &str) -> (r: Option<u16>)
        requires
            self.wf(),
        ensures
            r == lookup(self@, symbol@),
    {
        let name = String::from_str(symbol);
        self.lookup_string(&name)
    }

    /// Whether every 16-bit variable address has been given out.
    pub fn is_full(&self) -> (r: bool)
        requires
            self.wf(),
        ensures
            r == (self@.next_variable > u16::MAX),
    {
        self.next_variable > u16::MAX as u32
    }

    /// Records label `symbol` at ROM address `address`, unless it is already recorded.
    pub fn add_symbol(&mut self, symbol: &str, address: u16)
        requires
            old(self).wf(),
        ensures
            final(self).wf(),
            final(self)@ == with_label(old(self)@, symbol@, address),
    {
        let name = String::from_str(symbol);
        if SymbolTable::find_in(&self.labels, &name).is_none() {
            let ghost before = pairs_view(self.labels@);
            self.labels.push((name, address));
            assert(pairs_view(self.labels@) =~= before.push((symbol@, address)));
        }
    }

    /// The address of `symbol`: predefined, else label, else variable, a new variable
    /// getting the next free address.
    pub fn address_for(&mut self, symbol: &str) -> (r: u16)
        requires
            old(self).wf(),
            resolvable(old(self)@, symbol@),
        ensures
            final(self).wf(),
            (final(self)@, r) == resolved(old(self)@, symbol@),
    {
        let name = String::from_str(symbol);
        match self.lookup_string(&name) {
            Some(a) => a,
            None => {
                let address = self.next_variable as u16;
                let ghost before = pairs_view(self.variables@);
                self.variables.push((name, address));
                self.next_variable = self.next_variable + 1;
                assert(pairs_view(self.variables@) =~= before.push((symbol@, address)));
                address
            },
        }
    }
}

/// Resolving a name twice gives the same address both times, and the second time records
/// nothing new.
pub proof fn resolving_twice_agrees(t: TableModel, name: Seq<char>)
    ensures
        resolved(resolved(t, name).0, name) == (resolved(t, name).0, resolved(t, name).1),
{
    if lookup(t, name) is None {
        lemma_find_push(t.variables, name, t.next_variable as u16, name);
    }
}

/// A name that has no address yet becomes the next variable, and the one after it the
/// variable after that; in a fresh table these are addresses 16 and 17.
pub proof fn variables_are_allocated_in_order(t: TableModel, first: Seq<char>, second: Seq<char>)
    requires
        lookup(t, first) is None,
        lookup(t, second) is None,
        first != second,
        t.next_variable < u16::MAX,
    ensures
        resolved(t, first).1 == t.next_variable,
        resolved(resolved(t, first).0, second).1 == t.next_variable + 1,
        t == fresh_table() ==> resolved(t, first).1 == 16 && resolved(
            resolved(t, first).0,
            second,
        ).1 == 17,
{
    lemma_find_push(t.variables, first, t.next_variable as u16, second);
}

} // verus!
