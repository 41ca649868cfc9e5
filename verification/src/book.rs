use vstd::prelude::*;
use vstd::string::StrSliceExecFns;

verus! {

broadcast use vstd::seq::group_seq_axioms, vstd::seq_lib::group_seq_lib_default, vstd::std_specs::vec::group_vec_axioms;

/// Whether a known address names a token or an exchange contract.
#[derive(Clone, Copy, PartialEq, Eq, Structural, Debug)]
pub enum Category {
    Token,
    Exchange,
}

/// One binding of a symbolic name to a canonical address, scoped to a
/// network and a category.
pub struct AddressEntry {
    pub network: String,
    pub category: Category,
    pub symbol: String,
    pub address: String,
}

/// The mathematical model of an entry.
pub struct EntryV {
    pub network: Seq<char>,
    pub category: Category,
    pub symbol: Seq<char>,
    pub address: Seq<char>,
}

impl View for AddressEntry {
    type V = EntryV;

    open spec fn view(&self) -> EntryV {
        EntryV {
            network: self.network@,
            category: self.category,
            symbol: self.symbol@,
            address: self.address@,
        }
    }
}

/// The character's code with an upper-case letter folded to lower case.
pub open spec fn lower_code(c: char) -> int {
    if 65 <= c as u32 && c as u32 <= 90 {
        c as u32 + 32
    } else {
        c as u32 as int
    }
}

/// Case-insensitive equality of two character strings.
pub open spec fn lower_eq(a: Seq<char>, b: Seq<char>) -> bool {
    a.len() == b.len() && (forall|i: int| 0 <= i < a.len() ==> lower_code(a[i]) == lower_code(b[i]))
}

/// Compares two strings ignoring the case of ASCII letters.
pub fn eq_ignore_case(a: &str, b: &str) -> (r: bool)
    ensures
        r == lower_eq(a@, b@),
{
    let la = a.unicode_len();
    let lb = b.unicode_len();
    if la != lb {
        return false;
    }
    let mut i: usize = 0;
    while i < la
        invariant
            0 <= i <= la,
            la == a@.len(),
            lb == b@.len(),
            la == lb,
            forall|j: int| 0 <= j < i ==> lower_code(a@[j]) == lower_code(b@[j]),
        decreases la - i,
    {
        let ca = a.get_char(i);
        let cb = b.get_char(i);
        let xa: u32 = ca as u32;
        let xb: u32 = cb as u32;
        let fa: u32 = if 65 <= xa && xa <= 90 {
            xa + 32
        } else {
            xa
        };
        let fb: u32 = if 65 <= xb && xb <= 90 {
            xb + 32
        } else {
            xb
        };
        if fa != fb {
            return false;
        }
        i += 1;
    }
    true
}

/// The symbol of the first entry for this network and category whose
/// address matches ignoring case.
pub open spec fn book_resolve(
    bv: Seq<EntryV>,
    network: Seq<char>,
    cat: Category,
    addr: Seq<char>,
) -> Option<Seq<char>>
    decreases bv.len(),
{
    if bv.len() == 0 {
        None
    } else if bv[0].network == network && bv[0].category == cat && lower_eq(bv[0].address, addr) {
        Some(bv[0].symbol)
    } else {
        book_resolve(bv.drop_first(), network, cat, addr)
    }
}

/// The address of the first entry for this network and category with
/// exactly this symbol.
pub open spec fn book_lookup(
    bv: Seq<EntryV>,
    network: Seq<char>,
    cat: Category,
    symbol: Seq<char>,
) -> Option<Seq<char>>
    decreases bv.len(),
{
    if bv.len() == 0 {
        None
    } else if bv[0].network == network && bv[0].category == cat && bv[0].symbol == symbol {
        Some(bv[0].address)
    } else {
        book_lookup(bv.drop_first(), network, cat, symbol)
    }
}

proof fn lemma_book_resolve_first(
    bv: Seq<EntryV>,
    network: Seq<char>,
    cat: Category,
    addr: Seq<char>,
    i: int,
)
    requires
        0 <= i < bv.len(),
        bv[i].network == network && bv[i].category == cat && lower_eq(bv[i].address, addr),
        forall|j: int|
            0 <= j < i ==> !((#[trigger] bv[j]).network == network && bv[j].category == cat
                && lower_eq(bv[j].address, addr)),
    ensures
        book_resolve(bv, network, cat, addr) == Some(bv[i].symbol),
    decreases i,
{
    if i > 0 {
        lemma_book_resolve_first(bv.drop_first(), network, cat, addr, i - 1);
    }
}

proof fn lemma_book_resolve_none(bv: Seq<EntryV>, network: Seq<char>, cat: Category, addr: Seq<char>)
    requires
        forall|j: int|
            0 <= j < bv.len() ==> !((#[trigger] bv[j]).network == network && bv[j].category == cat
                && lower_eq(bv[j].address, addr)),
    ensures
        book_resolve(bv, network, cat, addr) is None,
    decreases bv.len(),
{
    if bv.len() > 0 {
        lemma_book_resolve_none(bv.drop_first(), network, cat, addr);
    }
}

proof fn lemma_book_lookup_first(
    bv: Seq<EntryV>,
    network: Seq<char>,
    cat: Category,
    symbol: Seq<char>,
    i: int,
)
    requires
        0 <= i < bv.len(),
        bv[i].network == network && bv[i].category == cat && bv[i].symbol == symbol,
        forall|j: int|
            0 <= j < i ==> !((#[trigger] bv[j]).network == network && bv[j].category == cat
                && bv[j].symbol == symbol),
    ensures
        book_lookup(bv, network, cat, symbol) == Some(bv[i].address),
    decreases i,
{
    if i > 0 {
        lemma_book_lookup_first(bv.drop_first(), network, cat, symbol, i - 1);
    }
}

proof fn lemma_book_lookup_none(
    bv: Seq<EntryV>,
    network: Seq<char>,
    cat: Category,
    symbol: Seq<char>,
)
    requires
        forall|j: int|
            0 <= j < bv.len() ==> !((#[trigger] bv[j]).network == network && bv[j].category == cat
                && bv[j].symbol == symbol),
    ensures
        book_lookup(bv, network, cat, symbol) is None,
    decreases bv.len(),
{
    if bv.len() > 0 {
        lemma_book_lookup_none(bv.drop_first(), network, cat, symbol);
    }
}

/// Two entries collide when they bind the same symbol twice within one
/// network and category.
pub open spec fn dup_symbols(bv: Seq<EntryV>) -> bool {
    exists|i: int, j: int|
        0 <= i < j < bv.len() && (#[trigger] bv[i]).network == (#[trigger] bv[j]).network
            && bv[i].category == bv[j].category && bv[i].symbol == bv[j].symbol
}

/// Why an address book could not be built.
#[derive(Clone, Copy, PartialEq, Eq, Structural, Debug)]
pub enum BookError {
    DuplicateSymbol,
}

/// An immutable table binding symbolic names to canonical addresses, per
/// network and category.
pub struct AddressBook {
    entries: Vec<AddressEntry>,
}

impl View for AddressBook {
    type V = Seq<EntryV>;

    closed spec fn view(&self) -> Seq<EntryV> {
        self.entries@.map_values(|e: AddressEntry| e@)
    }
}

impl AddressBook {
    /// Builds a book from entries, refusing duplicate symbols within one
    /// network and category.
    pub fn new(entries: Vec<AddressEntry>) -> (r: Result<AddressBook, BookError>)
        ensures
            match r {
                Ok(b) => b@ == entries@.map_values(|e: AddressEntry| e@) && !dup_symbols(
                    entries@.map_values(|e: AddressEntry| e@),
                ),
                Err(_) => dup_symbols(entries@.map_values(|e: AddressEntry| e@)),
            },
    {
        let ghost bv = entries@.map_values(|e: AddressEntry| e@);
        let n = entries.len();
        let mut i: usize = 0;
        while i < n
            invariant
                0 <= i <= n,
                n == entries@.len(),
                bv == entries@.map_values(|e: AddressEntry| e@),
                bv.len() == n,
                forall|a: int, b: int|
                    0 <= a < b < n && a < i as int ==> !((#[trigger] bv[a]).network == (
                    #[trigger] bv[b]).network && bv[a].category == bv[b].category && bv[a].symbol
                        == bv[b].symbol),
            decreases n - i,
        {
            let mut j: usize = i + 1;
            while j < n
                invariant
                    0 <= i < j <= n,
                    n == entries@.len(),
                    bv == entries@.map_values(|e: AddressEntry| e@),
                    bv.len() == n,
                    forall|b: int|
                        i < b < j ==> !((#[trigger] bv[b]).network == bv[i as int].network
                            && bv[b].category == bv[i as int].category && bv[b].symbol
                            == bv[i as int].symbol),
                decreases n - j,
            {
                let same_net = entries[i].network == entries[j].network;
                let same_cat = entries[i].category == entries[j].category;
                let same_sym = entries[i].symbol == entries[j].symbol;
                if same_net && same_cat && same_sym {
                    proof {
                        assert(bv[i as int].network == bv[j as int].network && bv[i as int].category
                            == bv[j as int].category && bv[i as int].symbol == bv[j as int].symbol);
                    }
                    return Err(BookError::DuplicateSymbol);
                }
                j += 1;
            }
            i += 1;
        }
        Ok(AddressBook { entries })
    }

    /// Resolves an address to its symbolic name, comparing addresses
    /// without regard to letter case.
    pub fn resolve(&self, network: &str, category: Category, address: &str) -> (r: Option<String>)
        ensures
            match r {
                Some(s) => book_resolve(self@, network@, category, address@) == Some(s@),
                None => book_resolve(self@, network@, category, address@) is None,
            },
    {
        let mut i: usize = 0;
        while i < self.entries.len()
            invariant
                0 <= i <= self.entries@.len(),
                self@.len() == self.entries@.len(),
                forall|j: int| 0 <= j < self@.len() ==> (#[trigger] self@[j]) == self.entries@[j]@,
                forall|j: int|
                    0 <= j < i as int ==> !((#[trigger] self@[j]).network == network@
                        && self@[j].category == category && lower_eq(self@[j].address, address@)),
            decreases self.entries@.len() - i,
        {
            let same_net = str_eq_x(&self.entries[i].network, network);
            let same_cat = self.entries[i].category == category;
            let same_addr = eq_ignore_case(self.entries[i].address.as_str(), address);
            if same_net && same_cat && same_addr {
                proof {
                    lemma_book_resolve_first(self@, network@, category, address@, i as int);
                }
                return Some(self.entries[i].symbol.clone());
            }
            i += 1;
        }
        proof {
            lemma_book_resolve_none(self@, network@, category, address@);
        }
        None
    }

    /// Looks a symbol up, returning its canonical address.
    pub fn lookup(&self, network: &str, category: Category, symbol: &str) -> (r: Option<String>)
        ensures
            match r {
                Some(s) => book_lookup(self@, network@, category, symbol@) == Some(s@),
                None => book_lookup(self@, network@, category, symbol@) is None,
            },
    {
        let mut i: usize = 0;
        while i < self.entries.len()
            invariant
                0 <= i <= self.entries@.len(),
                self@.len() == self.entries@.len(),
                forall|j: int| 0 <= j < self@.len() ==> (#[trigger] self@[j]) == self.entries@[j]@,
                forall|j: int|
                    0 <= j < i as int ==> !((#[trigger] self@[j]).network == network@
                        && self@[j].category == category && self@[j].symbol == symbol@),
            decreases self.entries@.len() - i,
        {
            let same_net = str_eq_x(&self.entries[i].network, network);
            let same_sym = str_eq_x(&self.entries[i].symbol, symbol);
            let same_cat = self.entries[i].category == category;
            if same_net && same_cat && same_sym {
                proof {
                    lemma_book_lookup_first(self@, network@, category, symbol@, i as int);
                }
                return Some(self.entries[i].address.clone());
            }
            i += 1;
        }
        proof {
            lemma_book_lookup_none(self@, network@, category, symbol@);
        }
        None
    }
}

/// Exact string equality against a borrowed string.
fn str_eq_x(a: &String, b: &str) -> (r: bool)
    ensures
        r == (a@ == b@),
{
    let bo: String = b.to_owned();
    *a == bo
}

} // verus!
