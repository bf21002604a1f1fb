//! The metric store: recorded values keyed by lifetime, store, category,
//! name and label.
//!
//! The store is modelled as a map from [`MetricId`] to [`MetricValue`]. Every
//! operation states its effect on that map.

use vstd::prelude::*;

verus! {

/// The clearing policy of a metric, fixed when the metric is declared.
#[derive(Clone, Copy, Debug, PartialEq, Eq, Structural)]
pub enum Lifetime {
    /// Cleared after each send of a ping the metric belongs to.
    Ping,
    /// Cleared only when upload is switched off or on.
    Application,
    /// Kept for as long as the user's installation lives.
    User,
}

/// The declaration of a metric: how it is named, where it is sent, and how
/// long its value lives.
#[derive(Clone, Debug)]
pub struct CommonMetricData {
    pub name: String,
    pub category: String,
    pub send_in_pings: Vec<String>,
    pub lifetime: Lifetime,
    pub disabled: bool,
    pub dynamic_label: Option<String>,
}

/// The mathematical content of a metric's declaration.
pub struct CommonMetricDataView {
    pub name: Seq<char>,
    pub category: Seq<char>,
    pub send_in_pings: Seq<Seq<char>>,
    pub lifetime: Lifetime,
    pub disabled: bool,
    pub dynamic_label: Option<Seq<char>>,
}

/// The mathematical identity of one stored value.
pub struct MetricId {
    pub lifetime: Lifetime,
    pub store: Seq<char>,
    pub category: Seq<char>,
    pub name: Seq<char>,
    pub label: Option<Seq<char>>,
}

/// The mathematical content of one stored value.
pub enum MetricValue {
    Boolean(bool),
    Counter(nat),
    Text(Seq<char>),
}

/// A recorded value.
#[derive(Clone, Debug, PartialEq, Eq)]
pub enum Metric {
    Boolean(bool),
    Counter(u64),
    Text(String),
}

/// The key under which a value is stored.
#[derive(Clone, Debug, PartialEq, Eq)]
pub struct MetricKey {
    pub lifetime: Lifetime,
    pub store: String,
    pub category: String,
    pub name: String,
    pub label: Option<String>,
}

/// One stored value together with its key.
#[derive(Clone, Debug, PartialEq, Eq)]
pub struct Record {
    pub key: MetricKey,
    pub value: Metric,
}

/// Which entries of a store an operation keeps.
#[derive(Clone, Debug)]
pub enum Selector {
    /// The entries that survive the withdrawal of consent.
    Exempt,
    /// The entries that a ping of the given name carries: those of its own
    /// store and, where asked for, the exempt ones.
    ForPing { store: String, include_client_id: bool },
    /// Everything but the ping-lifetime entries of the given store.
    KeepAfterSend { store: String },
}

/// The store that holds the client's own description.
pub open spec fn client_info_store() -> Seq<char> {
    "glean_client_info"@
}

/// The name of the client's stable identifier.
pub open spec fn client_id_name() -> Seq<char> {
    "client_id"@
}

/// The entries that survive the withdrawal of consent: the client's stable
/// identifier, which is needed to tell the server whose data to delete.
pub open spec fn is_exempt(id: MetricId) -> bool {
    &&& id.lifetime == Lifetime::User
    &&& id.store == client_info_store()
    &&& id.category.len() == 0
    &&& id.name == client_id_name()
    &&& id.label is None
}

/// The view of an optional string.
pub open spec fn opt_string_view(o: Option<String>) -> Option<Seq<char>> {
    match o {
        Some(s) => Some(s@),
        None => None,
    }
}

/// The views of a sequence of strings.
pub open spec fn strings_view(v: Seq<String>) -> Seq<Seq<char>> {
    v.map_values(|s: String| s@)
}

/// The saturating sum of two counters.
pub open spec fn saturating_sum(a: nat, b: nat) -> nat {
    if a + b > u64::MAX {
        u64::MAX as nat
    } else {
        a + b
    }
}

/// What a counter holds after `amount` is added to the value `prior`. A value
/// that is absent or no counter counts as zero.
pub open spec fn counter_after(prior: Option<MetricValue>, amount: nat) -> MetricValue {
    match prior {
        Some(MetricValue::Counter(c)) => MetricValue::Counter(saturating_sum(c, amount)),
        _ => MetricValue::Counter(saturating_sum(0, amount)),
    }
}

/// The map that a sequence of records stands for. A later record of a key
/// overrides an earlier one.
pub open spec fn records_to_map(s: Seq<Record>) -> Map<MetricId, MetricValue>
    decreases s.len(),
{
    if s.len() == 0 {
        Map::empty()
    } else {
        records_to_map(s.drop_last()).insert(s.last().key@, s.last().value@)
    }
}

impl View for Metric {
    type V = MetricValue;

    open spec fn view(&self) -> MetricValue {
        match self {
            Metric::Boolean(b) => MetricValue::Boolean(*b),
            Metric::Counter(c) => MetricValue::Counter(*c as nat),
            Metric::Text(s) => MetricValue::Text(s@),
        }
    }
}

impl View for CommonMetricData {
    type V = CommonMetricDataView;

    open spec fn view(&self) -> CommonMetricDataView {
        CommonMetricDataView {
            name: self.name@,
            category: self.category@,
            send_in_pings: strings_view(self.send_in_pings@),
            lifetime: self.lifetime,
            disabled: self.disabled,
            dynamic_label: opt_string_view(self.dynamic_label),
        }
    }
}

impl View for MetricKey {
    type V = MetricId;

    open spec fn view(&self) -> MetricId {
        MetricId {
            lifetime: self.lifetime,
            store: self.store@,
            category: self.category@,
            name: self.name@,
            label: opt_string_view(self.label),
        }
    }
}

/// The entries that survive the withdrawal of consent.
pub open spec fn exempt_keys() -> Set<MetricId> {
    Set::new(|id: MetricId| is_exempt(id))
}

/// The entries that a ping named `store` carries: those of its own store and,
/// where asked for, the exempt ones.
pub open spec fn keys_for_ping(store: Seq<char>, include_client_id: bool) -> Set<MetricId> {
    Set::new(|id: MetricId| id.store == store || (include_client_id && is_exempt(id)))
}

/// Everything but the ping-lifetime entries of the store `store`.
pub open spec fn keys_kept_after_send(store: Seq<char>) -> Set<MetricId> {
    Set::new(|id: MetricId| !(id.lifetime == Lifetime::Ping && id.store == store))
}

impl Selector {
    /// The set of the entries that the selector keeps.
    pub open spec fn kept(&self) -> Set<MetricId> {
        match self {
            Selector::Exempt => exempt_keys(),
            Selector::ForPing { store, include_client_id } => keys_for_ping(
                store@,
                *include_client_id,
            ),
            Selector::KeepAfterSend { store } => keys_kept_after_send(store@),
        }
    }

    /// Whether the selector keeps the entry `id`.
    pub open spec fn selects(&self, id: MetricId) -> bool {
        self.kept().contains(id)
    }

    /// Decides whether the selector keeps the entry stored under `key`.
    pub fn matches(&self, key: &MetricKey) -> (b: bool)
        ensures
            b == self.selects(key@),
    {
        match self {
            Selector::Exempt => key.is_exempt(),
            Selector::ForPing { store, include_client_id } => {
                key.store == *store || (*include_client_id && key.is_exempt())
            },
            Selector::KeepAfterSend { store } => {
                !(key.lifetime == Lifetime::Ping && key.store == *store)
            },
        }
    }
}

/// Copies an optional string.
pub fn clone_opt_string(o: &Option<String>) -> (r: Option<String>)
    ensures
        r == *o,
{
    match o {
        Some(s) => Some(s.clone()),
        None => None,
    }
}

/// Compares two optional strings by their characters.
pub fn opt_string_eq(a: &Option<String>, b: &Option<String>) -> (r: bool)
    ensures
        r == (opt_string_view(*a) == opt_string_view(*b)),
{
    match a {
        Some(x) => match b {
            Some(y) => *x == *y,
            None => false,
        },
        None => match b {
            Some(_) => false,
            None => true,
        },
    }
}

impl Metric {
    /// Copies the value.
    pub fn duplicate(&self) -> (r: Metric)
        ensures
            r == *self,
    {
        match self {
            Metric::Boolean(b) => Metric::Boolean(*b),
            Metric::Counter(c) => Metric::Counter(*c),
            Metric::Text(s) => Metric::Text(s.clone()),
        }
    }
}

impl MetricKey {
    /// The key of the metric declared by `meta` in the store `store`.
    pub fn for_store(meta: &CommonMetricData, store: &String) -> (key: MetricKey)
        ensures
            key@ == spec_metric_id(meta@, store@),
    {
        MetricKey {
            lifetime: meta.lifetime,
            store: store.clone(),
            category: meta.category.clone(),
            name: meta.name.clone(),
            label: clone_opt_string(&meta.dynamic_label),
        }
    }

    /// The key of the client's stable identifier.
    pub fn client_id() -> (key: MetricKey)
        ensures
            is_exempt(key@),
            key@ == spec_client_id_key(),
    {
        MetricKey {
            lifetime: Lifetime::User,
            store: "glean_client_info".to_owned(),
            category: String::new(),
            name: "client_id".to_owned(),
            label: None,
        }
    }

    /// Copies the key.
    pub fn duplicate(&self) -> (r: MetricKey)
        ensures
            r == *self,
    {
        MetricKey {
            lifetime: self.lifetime,
            store: self.store.clone(),
            category: self.category.clone(),
            name: self.name.clone(),
            label: clone_opt_string(&self.label),
        }
    }

    /// Decides whether two keys name the same entry.
    pub fn same(&self, other: &MetricKey) -> (b: bool)
        ensures
            b == (self@ == other@),
    {
        self.lifetime == other.lifetime && self.store == other.store && self.category
            == other.category && self.name == other.name && opt_string_eq(
            &self.label,
            &other.label,
        )
    }

    /// Decides whether the entry survives the withdrawal of consent.
    pub fn is_exempt(&self) -> (b: bool)
        ensures
            b == is_exempt(self@),
    {
        let store = "glean_client_info".to_owned();
        let name = "client_id".to_owned();
        self.lifetime == Lifetime::User && self.store == store && self.category.as_str().is_empty()
            && self.name == name && self.label.is_none()
    }
}

/// The identity of the metric declared by `meta` in the store `store`.
pub open spec fn spec_metric_id(meta: CommonMetricDataView, store: Seq<char>) -> MetricId {
    MetricId {
        lifetime: meta.lifetime,
        store: store,
        category: meta.category,
        name: meta.name,
        label: meta.dynamic_label,
    }
}

/// The identity of the client's stable identifier.
pub open spec fn spec_client_id_key() -> MetricId {
    MetricId {
        lifetime: Lifetime::User,
        store: client_info_store(),
        category: Seq::empty(),
        name: client_id_name(),
        label: None,
    }
}

impl Record {
    /// Copies the record.
    pub fn duplicate(&self) -> (r: Record)
        ensures
            r == *self,
    {
        Record { key: self.key.duplicate(), value: self.value.duplicate() }
    }
}

/// No record of `s` is stored under `k`.
pub open spec fn no_record_of(s: Seq<Record>, k: MetricId) -> bool {
    forall|j: int| 0 <= j < s.len() ==> (#[trigger] s[j]).key@ != k
}

/// No record of `s` after position `i` is stored under `k`.
pub open spec fn no_later_record_of(s: Seq<Record>, i: int, k: MetricId) -> bool {
    forall|j: int| i < j < s.len() ==> (#[trigger] s[j]).key@ != k
}

/// A key that no record holds is absent from the map.
pub proof fn lemma_absent_key(s: Seq<Record>, k: MetricId)
    requires
        no_record_of(s, k),
    ensures
        !records_to_map(s).contains_key(k),
    decreases s.len(),
{
    if s.len() > 0 {
        let t = s.drop_last();
        assert forall|j: int| 0 <= j < t.len() implies (#[trigger] t[j]).key@ != k by {
            assert(t[j] == s[j]);
        }
        lemma_absent_key(t, k);
        assert(s.last() == s[s.len() - 1]);
    }
}

/// The map holds, for a key, the value of the last record stored under it.
pub proof fn lemma_last_record_wins(s: Seq<Record>, i: int, k: MetricId)
    requires
        0 <= i < s.len(),
        s[i].key@ == k,
        no_later_record_of(s, i, k),
    ensures
        records_to_map(s).contains_key(k),
        records_to_map(s)[k] == s[i].value@,
    decreases s.len(),
{
    let t = s.drop_last();
    if i == s.len() - 1 {
        assert(s.last() == s[i]);
    } else {
        assert(s.last() == s[s.len() - 1]);
        assert(s.last().key@ != k);
        assert(t[i] == s[i]);
        assert forall|j: int| i < j < t.len() implies (#[trigger] t[j]).key@ != k by {
            assert(t[j] == s[j]);
        }
        lemma_last_record_wins(t, i, k);
    }
}

/// Replacing the last record of a key by another record of that key stores
/// the new value under the key and changes nothing else.
pub proof fn lemma_replace_last_record(s: Seq<Record>, i: int, r: Record)
    requires
        0 <= i < s.len(),
        s[i].key@ == r.key@,
        no_later_record_of(s, i, r.key@),
    ensures
        records_to_map(s.update(i, r)) == records_to_map(s).insert(r.key@, r.value@),
    decreases s.len(),
{
    let u = s.update(i, r);
    let t = s.drop_last();
    if i == s.len() - 1 {
        assert(u.drop_last() =~= t);
        assert(u.last() == r);
        assert(s.last() == s[i]);
        assert(records_to_map(u) =~= records_to_map(s).insert(r.key@, r.value@));
    } else {
        assert(u.drop_last() =~= t.update(i, r));
        assert(u.last() == s.last());
        assert(s.last() == s[s.len() - 1]);
        assert(s.last().key@ != r.key@);
        assert(t[i] == s[i]);
        assert forall|j: int| i < j < t.len() implies (#[trigger] t[j]).key@ != r.key@ by {
            assert(t[j] == s[j]);
        }
        lemma_replace_last_record(t, i, r);
        assert(records_to_map(u) =~= records_to_map(s).insert(r.key@, r.value@));
    }
}

/// Appending a record stores its value under its key and changes nothing
/// else.
pub proof fn lemma_push_record(s: Seq<Record>, r: Record)
    ensures
        records_to_map(s.push(r)) == records_to_map(s).insert(r.key@, r.value@),
{
    assert(s.push(r).drop_last() =~= s);
    assert(s.push(r).last() == r);
}

/// The metric store: the values recorded so far.
#[derive(Debug)]
pub struct MetricStore {
    records: Vec<Record>,
}

impl View for MetricStore {
    type V = Map<MetricId, MetricValue>;

    closed spec fn view(&self) -> Map<MetricId, MetricValue> {
        records_to_map(self.records@)
    }
}

impl MetricStore {
    /// A store that holds nothing.
    pub fn new() -> (s: MetricStore)
        ensures
            s@ == Map::<MetricId, MetricValue>::empty(),
    {
        MetricStore { records: Vec::new() }
    }

    /// A store that holds what the given records stand for.
    pub fn from_records(records: Vec<Record>) -> (s: MetricStore)
        ensures
            s@ == records_to_map(records@),
    {
        MetricStore { records }
    }

    /// The records of the store, in the order in which their keys were first
    /// stored.
    pub closed spec fn spec_records(&self) -> Seq<Record> {
        self.records@
    }

    /// The records of a store stand for what the store holds.
    pub proof fn lemma_records_view(&self)
        ensures
            records_to_map(self.spec_records()) == self@,
    {
    }

    /// The records of the store, in the order in which their keys were first
    /// stored.
    pub fn records(&self) -> (r: &Vec<Record>)
        ensures
            r@ == self.spec_records(),
            records_to_map(r@) == self@,
    {
        &self.records
    }

    /// Whether the store holds nothing.
    pub fn is_empty(&self) -> (b: bool)
        ensures
            b == (self@ == Map::<MetricId, MetricValue>::empty()),
    {
        let b = self.records.len() == 0;
        proof {
            if !b {
                let s = self.records@;
                assert(records_to_map(s).contains_key(s.last().key@));
                assert(!Map::<MetricId, MetricValue>::empty().contains_key(s.last().key@));
            }
        }
        b
    }

    /// The position of the last record stored under `key`, if there is one.
    fn find_last(&self, key: &MetricKey) -> (r: Option<usize>)
        ensures
            match r {
                Some(i) => i < self.records@.len() && self.records@[i as int].key@ == key@
                    && no_later_record_of(self.records@, i as int, key@),
                None => no_record_of(self.records@, key@),
            },
    {
        let mut i: usize = self.records.len();
        while i > 0
            invariant
                i <= self.records@.len(),
                no_later_record_of(self.records@, i as int - 1, key@),
            decreases i,
        {
            i = i - 1;
            if self.records[i].key.same(key) {
                return Some(i);
            }
        }
        None
    }

    /// The value stored under `key`, if there is one.
    pub fn get(&self, key: &MetricKey) -> (r: Option<Metric>)
        ensures
            match r {
                Some(v) => self@.contains_key(key@) && self@[key@] == v@,
                None => !self@.contains_key(key@),
            },
    {
        match self.find_last(key) {
            Some(i) => {
                proof {
                    lemma_last_record_wins(self.records@, i as int, key@);
                }
                Some(self.records[i].value.duplicate())
            },
            None => {
                proof {
                    lemma_absent_key(self.records@, key@);
                }
                None
            },
        }
    }

    /// Stores `value` under `key`, in place of what was there.
    pub fn insert(&mut self, key: MetricKey, value: Metric)
        ensures
            final(self)@ == old(self)@.insert(key@, value@),
    {
        let found = self.find_last(&key);
        let record = Record { key, value };
        match found {
            Some(i) => {
                proof {
                    lemma_replace_last_record(self.records@, i as int, record);
                }
                self.records.set(i, record);
            },
            None => {
                proof {
                    lemma_push_record(self.records@, record);
                }
                self.records.push(record);
            },
        }
    }

    /// Adds `amount` to the counter stored under `key`. The sum saturates. A
    /// value that is absent or no counter counts as zero.
    pub fn add_counter(&mut self, key: MetricKey, amount: u64)
        ensures
            final(self)@ == old(self)@.insert(
                key@,
                counter_after(
                    if old(self)@.contains_key(key@) {
                        Some(old(self)@[key@])
                    } else {
                        None
                    },
                    amount as nat,
                ),
            ),
    {
        let prior: u64 = match self.get(&key) {
            Some(Metric::Counter(c)) => c,
            _ => 0,
        };
        let sum: u64 = if prior > u64::MAX - amount {
            u64::MAX
        } else {
            prior + amount
        };
        self.insert(key, Metric::Counter(sum));
    }

    /// A store that holds the entries of this one that `selector` keeps.
    pub fn filtered(&self, selector: &Selector) -> (out: MetricStore)
        ensures
            out@ == self@.restrict(selector.kept()),
    {
        let mut kept: Vec<Record> = Vec::new();
        let mut i: usize = 0;
        while i < self.records.len()
            invariant
                i <= self.records@.len(),
                records_to_map(kept@) == records_to_map(self.records@.take(i as int)).restrict(
                    selector.kept(),
                ),
            decreases self.records@.len() - i,
        {
            let ghost before = records_to_map(self.records@.take(i as int));
            let ghost kept_before = kept@;
            let record = &self.records[i];
            proof {
                assert(self.records@.take(i as int + 1) =~= self.records@.take(i as int).push(
                    *record,
                ));
                lemma_push_record(self.records@.take(i as int), *record);
            }
            if selector.matches(&record.key) {
                let copy = record.duplicate();
                proof {
                    lemma_push_record(kept_before, copy);
                }
                kept.push(copy);
                assert(records_to_map(kept@) =~= before.insert(
                    record.key@,
                    record.value@,
                ).restrict(selector.kept()));
            } else {
                assert(records_to_map(kept@) =~= before.insert(
                    record.key@,
                    record.value@,
                ).restrict(selector.kept()));
            }
            i = i + 1;
        }
        assert(self.records@.take(i as int) =~= self.records@);
        MetricStore { records: kept }
    }

    /// Drops every entry that does not survive the withdrawal of consent.
    pub fn clear_non_exempt(&mut self)
        ensures
            final(self)@ == old(self)@.restrict(exempt_keys()),
    {
        let kept = self.filtered(&Selector::Exempt);
        self.records = kept.records;
    }

    /// Drops the ping-lifetime entries of the store `store`.
    pub fn clear_ping_lifetime(&mut self, store: &String)
        ensures
            final(self)@ == old(self)@.restrict(keys_kept_after_send(store@)),
    {
        let selector = Selector::KeepAfterSend { store: store.clone() };
        let kept = self.filtered(&selector);
        self.records = kept.records;
    }

    /// The entries that a ping named `store` carries.
    pub fn snapshot_for_ping(&self, store: &String, include_client_id: bool) -> (out: MetricStore)
        ensures
            out@ == self@.restrict(keys_for_ping(store@, include_client_id)),
    {
        let selector = Selector::ForPing { store: store.clone(), include_client_id };
        let out = self.filtered(&selector);
        out
    }

    /// Copies the store.
    pub fn duplicate(&self) -> (out: MetricStore)
        ensures
            out@ == self@,
    {
        let mut copy: Vec<Record> = Vec::new();
        let mut i: usize = 0;
        while i < self.records.len()
            invariant
                i <= self.records@.len(),
                copy@ == self.records@.take(i as int),
            decreases self.records@.len() - i,
        {
            let record = self.records[i].duplicate();
            copy.push(record);
            assert(copy@ =~= self.records@.take(i as int + 1));
            i = i + 1;
        }
        assert(self.records@.take(i as int) =~= self.records@);
        MetricStore { records: copy }
    }
}

} // verus!
