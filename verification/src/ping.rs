//! Ping definitions and the registry that holds them.
//!
//! A definition is registered once under its name; a later registration under
//! the same name changes nothing.

use vstd::prelude::*;
use crate::metrics::strings_view;

verus! {

/// The mathematical content of a ping definition.
pub struct PingTypeView {
    pub name: Seq<char>,
    pub include_client_id: bool,
    pub send_if_empty: bool,
    pub reason_codes: Seq<Seq<char>>,
}

/// The definition of a ping: its name, whether it carries the client's
/// stable identifier, whether it is sent when it holds no metric, and the
/// reasons it may be sent with.
#[derive(Debug)]
pub struct PingType {
    pub name: String,
    pub include_client_id: bool,
    pub send_if_empty: bool,
    pub reason_codes: Vec<String>,
}

impl View for PingType {
    type V = PingTypeView;

    open spec fn view(&self) -> PingTypeView {
        PingTypeView {
            name: self.name@,
            include_client_id: self.include_client_id,
            send_if_empty: self.send_if_empty,
            reason_codes: strings_view(self.reason_codes@),
        }
    }
}

/// Copies a list of strings.
pub fn clone_strings(v: &Vec<String>) -> (out: Vec<String>)
    ensures
        out@ == v@,
{
    let mut out: Vec<String> = Vec::new();
    let mut i: usize = 0;
    while i < v.len()
        invariant
            i <= v@.len(),
            out@ == v@.take(i as int),
        decreases v@.len() - i,
    {
        out.push(v[i].clone());
        assert(out@ =~= v@.take(i as int + 1));
        i = i + 1;
    }
    assert(v@.take(i as int) =~= v@);
    out
}

/// Whether one of `codes` is `reason`.
pub open spec fn has_reason(codes: Seq<Seq<char>>, reason: Seq<char>) -> bool {
    exists|i: int| 0 <= i < codes.len() && #[trigger] codes[i] == reason
}

/// The reason that a ping is sent with: the one given, where the definition
/// permits it, and none otherwise.
pub open spec fn spec_checked_reason(codes: Seq<Seq<char>>, reason: Option<Seq<char>>) -> Option<
    Seq<char>,
> {
    match reason {
        Some(r) => if has_reason(codes, r) {
            Some(r)
        } else {
            None
        },
        None => None,
    }
}

impl PingType {
    /// A ping definition.
    pub fn new(
        name: &str,
        include_client_id: bool,
        send_if_empty: bool,
        reason_codes: Vec<String>,
    ) -> (ping: PingType)
        ensures
            ping.name@ == name@,
            ping.include_client_id == include_client_id,
            ping.send_if_empty == send_if_empty,
            ping.reason_codes == reason_codes,
    {
        PingType { name: name.to_owned(), include_client_id, send_if_empty, reason_codes }
    }

    /// Copies the definition.
    pub fn duplicate(&self) -> (r: PingType)
        ensures
            r@ == self@,
    {
        PingType {
            name: self.name.clone(),
            include_client_id: self.include_client_id,
            send_if_empty: self.send_if_empty,
            reason_codes: clone_strings(&self.reason_codes),
        }
    }

    /// Decides whether the definition permits `reason`.
    pub fn permits(&self, reason: &String) -> (b: bool)
        ensures
            b == has_reason(self@.reason_codes, reason@),
    {
        let mut i: usize = 0;
        while i < self.reason_codes.len()
            invariant
                i <= self.reason_codes@.len(),
                forall|j: int| 0 <= j < i ==> (#[trigger] self@.reason_codes[j]) != reason@,
            decreases self.reason_codes@.len() - i,
        {
            if self.reason_codes[i] == *reason {
                assert(self@.reason_codes[i as int] == reason@);
                return true;
            }
            i = i + 1;
        }
        false
    }

    /// The reason that the ping is sent with, given the one asked for.
    pub fn checked_reason(&self, reason: &Option<String>) -> (r: Option<String>)
        ensures
            crate::metrics::opt_string_view(r) == spec_checked_reason(
                self@.reason_codes,
                crate::metrics::opt_string_view(*reason),
            ),
    {
        match reason {
            Some(text) => {
                if self.permits(text) {
                    Some(text.clone())
                } else {
                    None
                }
            },
            None => None,
        }
    }
}

/// Whether position `i` holds the first definition of `registry` with the
/// name `name`.
pub open spec fn is_registered_at(registry: Seq<PingTypeView>, name: Seq<char>, i: int) -> bool {
    &&& 0 <= i < registry.len()
    &&& registry[i].name == name
    &&& forall|j: int| 0 <= j < i ==> (#[trigger] registry[j]).name != name
}

/// Whether `registry` holds a definition with the name `name`.
pub open spec fn is_registered(registry: Seq<PingTypeView>, name: Seq<char>) -> bool {
    exists|i: int| is_registered_at(registry, name, i)
}

/// The definition that `registry` holds under the name `name`.
pub open spec fn spec_lookup(registry: Seq<PingTypeView>, name: Seq<char>) -> Option<PingTypeView> {
    if is_registered(registry, name) {
        Some(registry[choose|i: int| is_registered_at(registry, name, i)])
    } else {
        None
    }
}

/// The registry after `ping` is registered: unchanged where its name is
/// taken, and with `ping` at its end otherwise.
pub open spec fn spec_register(registry: Seq<PingTypeView>, ping: PingTypeView) -> Seq<
    PingTypeView,
> {
    if is_registered(registry, ping.name) {
        registry
    } else {
        registry.push(ping)
    }
}

/// A name is registered at one position at most.
pub proof fn lemma_registered_once(registry: Seq<PingTypeView>, name: Seq<char>, i: int, j: int)
    requires
        is_registered_at(registry, name, i),
        is_registered_at(registry, name, j),
    ensures
        i == j,
{
    if i < j {
        assert(registry[i].name != name);
    }
    if j < i {
        assert(registry[j].name != name);
    }
}

/// A definition, once registered, is what the registry holds under its name,
/// whatever is registered later.
pub proof fn lemma_registration_is_final(
    registry: Seq<PingTypeView>,
    first: PingTypeView,
    later: PingTypeView,
)
    ensures
        spec_lookup(spec_register(registry, first), first.name) is Some,
        spec_lookup(spec_register(spec_register(registry, first), later), first.name)
            == spec_lookup(spec_register(registry, first), first.name),
{
    let r1 = spec_register(registry, first);
    if !is_registered(registry, first.name) {
        assert forall|j: int| 0 <= j < registry.len() implies (#[trigger] registry[j]).name
            != first.name by {
            if registry[j].name == first.name {
                lemma_some_match_is_registered(registry, first.name, j);
            }
        }
        assert(is_registered_at(r1, first.name, registry.len() as int));
    }
    assert(is_registered(r1, first.name));
    let i = choose|i: int| is_registered_at(r1, first.name, i);
    let r2 = spec_register(r1, later);
    if r2 != r1 {
        assert(r2 == r1.push(later));
        assert(is_registered_at(r2, first.name, i)) by {
            assert(r2[i] == r1[i]);
            assert forall|j: int| 0 <= j < i implies (#[trigger] r2[j]).name != first.name by {
                assert(r2[j] == r1[j]);
            }
        }
        let k = choose|k: int| is_registered_at(r2, first.name, k);
        lemma_registered_once(r2, first.name, i, k);
    }
}

/// Where some definition has the name, the name is registered.
pub proof fn lemma_some_match_is_registered(registry: Seq<PingTypeView>, name: Seq<char>, j: int)
    requires
        0 <= j < registry.len(),
        registry[j].name == name,
    ensures
        is_registered(registry, name),
    decreases j,
{
    if forall|k: int| 0 <= k < j ==> (#[trigger] registry[k]).name != name {
        assert(is_registered_at(registry, name, j));
    } else {
        let k = choose|k: int| 0 <= k < j && (#[trigger] registry[k]).name == name;
        lemma_some_match_is_registered(registry, name, k);
    }
}

/// The views of a sequence of definitions.
pub open spec fn ping_views(pings: Seq<PingType>) -> Seq<PingTypeView> {
    pings.map_values(|p: PingType| p@)
}

/// The registry of ping definitions.
#[derive(Debug)]
pub struct PingRegistry {
    pings: Vec<PingType>,
}

impl View for PingRegistry {
    type V = Seq<PingTypeView>;

    closed spec fn view(&self) -> Seq<PingTypeView> {
        ping_views(self.pings@)
    }
}

impl PingRegistry {
    /// A registry that holds no definition.
    pub fn new() -> (r: PingRegistry)
        ensures
            r@ == Seq::<PingTypeView>::empty(),
    {
        let r = PingRegistry { pings: Vec::new() };
        assert(r@ =~= Seq::<PingTypeView>::empty());
        r
    }

    /// The number of definitions.
    pub fn len(&self) -> (n: usize)
        ensures
            n == self@.len(),
    {
        self.pings.len()
    }

    /// The position of the definition with the name `name`.
    fn find(&self, name: &String) -> (r: Option<usize>)
        ensures
            match r {
                Some(i) => is_registered_at(self@, name@, i as int),
                None => !is_registered(self@, name@),
            },
    {
        let mut i: usize = 0;
        while i < self.pings.len()
            invariant
                i <= self.pings@.len(),
                forall|j: int| 0 <= j < i ==> (#[trigger] self@[j]).name != name@,
            decreases self.pings@.len() - i,
        {
            if self.pings[i].name == *name {
                return Some(i);
            }
            i = i + 1;
        }
        assert forall|k: int| !is_registered_at(self@, name@, k) by {
            if 0 <= k < self@.len() {
                assert(self@[k].name != name@);
            }
        }
        None
    }

    /// The definition registered under `name`, if there is one.
    pub fn lookup(&self, name: &String) -> (r: Option<&PingType>)
        ensures
            match r {
                Some(p) => spec_lookup(self@, name@) == Some(p@),
                None => spec_lookup(self@, name@) is None,
            },
    {
        match self.find(name) {
            Some(i) => {
                proof {
                    let c = choose|k: int| is_registered_at(self@, name@, k);
                    lemma_registered_once(self@, name@, i as int, c);
                }
                Some(&self.pings[i])
            },
            None => None,
        }
    }

    /// Registers `ping`, unless its name is taken. Returns whether the
    /// definition was added.
    pub fn register(&mut self, ping: PingType) -> (added: bool)
        ensures
            final(self)@ == spec_register(old(self)@, ping@),
            added == !is_registered(old(self)@, ping@.name),
    {
        match self.find(&ping.name) {
            Some(_) => false,
            None => {
                self.pings.push(ping);
                assert(self@ =~= old(self)@.push(ping@));
                true
            },
        }
    }
}

} // verus!
