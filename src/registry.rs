//! The registry of known peer addresses: an ordered set, persisted as a JSON
//! array of strings.
use vstd::prelude::*;

verus! {

/// The strings of the JSON array that `text` holds, if it holds one.
pub uninterp spec fn json_string_list(text: Seq<char>) -> Option<Seq<Seq<char>>>;

/// The pretty-printed JSON array of `items`.
pub uninterp spec fn json_pretty_string_list(items: Seq<Seq<char>>) -> Seq<char>;

/// `text` is a well-formed multiaddress.
pub uninterp spec fn is_multiaddr(text: Seq<char>) -> bool;

/// Relies on serde_json::from_str::<Vec<String>>: the array of strings that
/// `text` holds, or nothing where it holds no such array.
#[verifier::external_body]
fn parse_string_list(text: &str) -> (r: Option<Vec<String>>)
    ensures
        r is Some <==> json_string_list(text@) is Some,
        r matches Some(v) ==> json_string_list(text@) == Some(v@.map_values(|s: String| s@)),
{
    serde_json::from_str::<Vec<String>>(text).ok()
}

/// Relies on serde_json::to_string_pretty over a `Vec<String>`: the
/// pretty-printed JSON array. It fails only where a `Serialize` impl fails or
/// a map has keys that are not strings, neither of which a list of strings has.
#[verifier::external_body]
fn pretty_string_list(items: &Vec<String>) -> (r: Option<String>)
    ensures
        r is Some,
        r matches Some(t) ==> t@ == json_pretty_string_list(items@.map_values(|s: String| s@)),
{
    serde_json::to_string_pretty(items).ok()
}

/// `c` has the Unicode White_Space property.
pub open spec fn is_white_space(c: char) -> bool {
    ('\u{9}' <= c && c <= '\u{d}') || c == ' ' || c == '\u{85}' || c == '\u{a0}' || c
        == '\u{1680}' || ('\u{2000}' <= c && c <= '\u{200a}') || c == '\u{2028}' || c
        == '\u{2029}' || c == '\u{202f}' || c == '\u{205f}' || c == '\u{3000}'
}

/// `text` holds nothing but white space.
pub open spec fn is_blank_text(text: Seq<char>) -> bool {
    forall|i: int| 0 <= i < text.len() ==> is_white_space(#[trigger] text[i])
}

/// Whether `c` is white space.
pub fn white_space(c: char) -> (r: bool)
    ensures
        r == is_white_space(c),
{
    ('\u{9}' <= c && c <= '\u{d}') || c == ' ' || c == '\u{85}' || c == '\u{a0}' || c
        == '\u{1680}' || ('\u{2000}' <= c && c <= '\u{200a}') || c == '\u{2028}' || c
        == '\u{2029}' || c == '\u{202f}' || c == '\u{205f}' || c == '\u{3000}'
}

/// Whether `text` holds nothing but white space.
pub fn is_blank(text: &str) -> (r: bool)
    ensures
        r == is_blank_text(text@),
{
    let n = text.unicode_len();
    let mut i: usize = 0;
    while i < n
        invariant
            n == text@.len(),
            i <= n,
            forall|k: int| 0 <= k < i ==> is_white_space(#[trigger] text@[k]),
        decreases n - i,
    {
        let c = text.get_char(i);
        if !white_space(c) {
            return false;
        }
        i = i + 1;
    }
    true
}

/// Relies on libp2p's `Multiaddr: FromStr`: whether `text` parses as a
/// multiaddress.
#[verifier::external_body]
fn parses_as_multiaddr(text: &str) -> (r: bool)
    ensures
        r == is_multiaddr(text@),
{
    text.parse::<libp2p::Multiaddr>().is_ok()
}

/// `addrs` after remembering `addr`: appended unless already present.
pub open spec fn remembered(addrs: Seq<Seq<char>>, addr: Seq<char>) -> Seq<Seq<char>> {
    if addrs.contains(addr) {
        addrs
    } else {
        addrs.push(addr)
    }
}

/// `addrs` after remembering each of `items` in turn.
pub open spec fn remembered_all(addrs: Seq<Seq<char>>, items: Seq<Seq<char>>) -> Seq<Seq<char>>
    decreases items.len(),
{
    if items.len() == 0 {
        addrs
    } else {
        remembered(remembered_all(addrs, items.drop_last()), items.last())
    }
}

/// `addrs` after remembering `addr` `n` times.
pub open spec fn remembered_times(addrs: Seq<Seq<char>>, addr: Seq<char>, n: nat) -> Seq<Seq<char>>
    decreases n,
{
    if n == 0 {
        addrs
    } else {
        remembered(remembered_times(addrs, addr, (n - 1) as nat), addr)
    }
}

/// Every one of `items` is a well-formed multiaddress.
pub open spec fn all_multiaddrs(items: Seq<Seq<char>>) -> bool {
    forall|i: int| 0 <= i < items.len() ==> is_multiaddr(#[trigger] items[i])
}

/// The addresses that the persisted `text` describes: none for blank text,
/// else the addresses of its JSON array, first occurrences kept. `Malformed`
/// where the text is not such an array, `MalformedAddress` where one of its
/// strings is not a well-formed multiaddress.
pub open spec fn loaded(text: Seq<char>) -> Result<Seq<Seq<char>>, RegistryError> {
    if is_blank_text(text) {
        Ok(Seq::empty())
    } else {
        match json_string_list(text) {
            Some(items) => if all_multiaddrs(items) {
                Ok(remembered_all(Seq::empty(), items))
            } else {
                Err(RegistryError::MalformedAddress)
            },
            None => Err(RegistryError::Malformed),
        }
    }
}

/// Remembering an address that is already known changes nothing.
pub proof fn lemma_remember_idempotent(addrs: Seq<Seq<char>>, addr: Seq<char>)
    ensures
        remembered(remembered(addrs, addr), addr) == remembered(addrs, addr),
{
    assert(remembered(addrs, addr).contains(addr)) by {
        if !addrs.contains(addr) {
            assert(addrs.push(addr)[addrs.len() as int] == addr);
        }
    }
}

/// Remembering one address any positive number of times in an empty
/// registry leaves exactly that address.
pub proof fn lemma_remember_repeatedly(addr: Seq<char>, n: nat)
    requires
        n >= 1,
    ensures
        remembered_times(Seq::empty(), addr, n) == seq![addr],
    decreases n,
{
    if n == 1 {
        assert(remembered_times(Seq::empty(), addr, 0) == Seq::<Seq<char>>::empty());
        assert(!Seq::<Seq<char>>::empty().contains(addr));
        assert(Seq::<Seq<char>>::empty().push(addr) =~= seq![addr]);
    } else {
        lemma_remember_repeatedly(addr, (n - 1) as nat);
        assert(seq![addr][0] == addr);
    }
}

/// Errors of the peer registry.
#[derive(Debug, Clone, Copy, PartialEq, Eq, Structural)]
pub enum RegistryError {
    /// The persisted text is not a JSON array of strings.
    Malformed,
    /// A persisted address is not a well-formed multiaddress.
    MalformedAddress,
}

/// Known peer addresses, without duplicates, in the order first seen.
#[derive(Debug)]
pub struct PeerRegistry {
    addresses: Vec<String>,
}

impl View for PeerRegistry {
    type V = Seq<Seq<char>>;

    closed spec fn view(&self) -> Seq<Seq<char>> {
        self.addresses@.map_values(|s: String| s@)
    }
}

impl PeerRegistry {
    /// The registry holds no address twice.
    pub open spec fn wf(&self) -> bool {
        self@.no_duplicates()
    }

    /// An empty registry.
    pub fn new() -> (r: PeerRegistry)
        ensures
            r@ == Seq::<Seq<char>>::empty(),
            r.wf(),
    {
        let r = PeerRegistry { addresses: Vec::new() };
        assert(r@ =~= Seq::<Seq<char>>::empty());
        r
    }

    /// Number of known addresses.
    pub fn len(&self) -> (r: usize)
        ensures
            r == self@.len(),
    {
        self.addresses.len()
    }

    /// The known addresses, in order.
    pub fn addresses(&self) -> (r: Vec<String>)
        ensures
            r@.map_values(|s: String| s@) == self@,
    {
        let mut out: Vec<String> = Vec::new();
        let mut i: usize = 0;
        while i < self.addresses.len()
            invariant
                i <= self.addresses@.len(),
                out@.len() == i,
                out@.map_values(|s: String| s@) == self@.take(i as int),
            decreases self.addresses@.len() - i,
        {
            let a = self.addresses[i].clone();
            out.push(a);
            i = i + 1;
            assert(out@.map_values(|s: String| s@) =~= self@.take(i as int));
        }
        assert(self@.take(i as int) =~= self@);
        out
    }

    /// Whether `addr` is known.
    pub fn contains(&self, addr: &String) -> (r: bool)
        ensures
            r == self@.contains(addr@),
    {
        let mut i: usize = 0;
        while i < self.addresses.len()
            invariant
                i <= self.addresses@.len(),
                forall|k: int| 0 <= k < i ==> self@[k] != addr@,
            decreases self.addresses@.len() - i,
        {
            if self.addresses[i] == *addr {
                assert(self@[i as int] == addr@);
                return true;
            }
            i = i + 1;
        }
        false
    }

    /// Adds `addr` unless it is already known. Returns whether it was added.
    pub fn remember(&mut self, addr: String) -> (added: bool)
        requires
            old(self).wf(),
        ensures
            final(self).wf(),
            added == !old(self)@.contains(addr@),
            final(self)@ == remembered(old(self)@, addr@),
    {
        if self.contains(&addr) {
            false
        } else {
            let ghost before = self@;
            self.addresses.push(addr);
            assert(self@ =~= before.push(addr@));
            true
        }
    }

    /// The registry that the persisted `text` describes.
    pub fn from_json(text: &str) -> (r: Result<PeerRegistry, RegistryError>)
        ensures
            r matches Ok(reg) ==> reg.wf() && loaded(text@) == Ok::<Seq<Seq<char>>, RegistryError>(
                reg@,
            ),
            r matches Err(e) ==> loaded(text@) == Err::<Seq<Seq<char>>, RegistryError>(e),
    {
        let mut reg = PeerRegistry::new();
        if is_blank(text) {
            return Ok(reg);
        }
        let items = match parse_string_list(text) {
            Some(items) => items,
            None => {
                return Err(RegistryError::Malformed);
            },
        };
        let ghost views = items@.map_values(|s: String| s@);
        let mut i: usize = 0;
        while i < items.len()
            invariant
                i <= items@.len(),
                views == items@.map_values(|s: String| s@),
                !is_blank_text(text@),
                json_string_list(text@) == Some(views),
                forall|k: int| 0 <= k < i ==> is_multiaddr(#[trigger] views[k]),
                reg.wf(),
                reg@ == remembered_all(Seq::empty(), views.take(i as int)),
            decreases items@.len() - i,
        {
            let ghost t = views.take(i as int);
            let ghost t1 = views.take(i + 1);
            assert(t1.drop_last() =~= t);
            assert(t1.last() == items@[i as int]@);
            if !parses_as_multiaddr(items[i].as_str()) {
                assert(!is_multiaddr(views[i as int]));
                assert(!all_multiaddrs(views));
                return Err(RegistryError::MalformedAddress);
            }
            let a = items[i].clone();
            reg.remember(a);
            i = i + 1;
        }
        assert(views.take(i as int) =~= views);
        assert(all_multiaddrs(views));
        Ok(reg)
    }

    /// The persisted form of the registry: a pretty-printed JSON array of the
    /// addresses, in order.
    pub fn to_json(&self) -> (r: String)
        ensures
            r@ == json_pretty_string_list(self@),
    {
        match pretty_string_list(&self.addresses) {
            Some(t) => t,
            None => String::new(),
        }
    }
}

} // verus!
