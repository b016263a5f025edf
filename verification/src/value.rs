//! The tagged value universe of the runtime and the variable storage
//! that holds it: globals, retained variables, and instances. Floats
//! are carried as their IEEE-754 bit patterns.

use vstd::prelude::*;

verus! {

/// A signed duration in nanoseconds.
#[derive(Debug, Clone, Copy, PartialEq, Eq, Structural)]
pub struct Duration {
    pub nanos: i64,
}

impl Duration {
    /// A duration of `nanos` nanoseconds.
    pub fn from_nanos(nanos: i64) -> (r: Duration)
        ensures
            r.nanos == nanos,
    {
        Duration { nanos }
    }

    /// A duration of `millis` milliseconds, saturating at the ends of
    /// the representable range.
    pub fn from_millis(millis: i64) -> (r: Duration)
        ensures
            millis * 1000000 <= i64::MAX && millis * 1000000 >= i64::MIN ==> r.nanos == millis
                * 1000000,
            millis * 1000000 > i64::MAX ==> r.nanos == i64::MAX,
            millis * 1000000 < i64::MIN ==> r.nanos == i64::MIN,
    {
        match millis.checked_mul(1000000) {
            Some(n) => Duration { nanos: n },
            None => {
                if millis > 0 {
                    Duration { nanos: i64::MAX }
                } else {
                    Duration { nanos: i64::MIN }
                }
            },
        }
    }

    /// A duration of `secs` seconds, saturating at the ends of the
    /// representable range.
    pub fn from_secs(secs: i64) -> (r: Duration)
        ensures
            secs * 1000000000 <= i64::MAX && secs * 1000000000 >= i64::MIN ==> r.nanos == secs
                * 1000000000,
            secs * 1000000000 > i64::MAX ==> r.nanos == i64::MAX,
            secs * 1000000000 < i64::MIN ==> r.nanos == i64::MIN,
    {
        match secs.checked_mul(1000000000) {
            Some(n) => Duration { nanos: n },
            None => {
                if secs > 0 {
                    Duration { nanos: i64::MAX }
                } else {
                    Duration { nanos: i64::MIN }
                }
            },
        }
    }

    /// The duration in nanoseconds.
    pub fn as_nanos(self) -> (r: i64)
        ensures
            r == self.nanos,
    {
        self.nanos
    }

    /// The duration in whole milliseconds, truncated toward zero.
    pub fn as_millis(self) -> (r: i64)
        ensures
            self.nanos >= 0 ==> r == self.nanos / 1000000,
            self.nanos < 0 ==> r == -((-(self.nanos as int)) / 1000000),
    {
        self.nanos / 1000000
    }
}

/// Identifier of a function-block instance in storage.
#[derive(Debug, Clone, Copy, PartialEq, Eq, Structural)]
pub struct InstanceId(pub u64);

/// An enumeration value: its type, variant, and numeric code.
pub struct EnumValue {
    pub ty_name: String,
    pub variant_name: String,
    pub numeric_value: i64,
}

/// A struct value: its type and its fields in declaration order.
pub struct StructValue {
    pub ty_name: String,
    pub fields: Vec<(String, Value)>,
}

/// An array value: its dimensions and elements in row-major order.
pub struct ArrayValue {
    pub dimensions: Vec<u32>,
    pub elements: Vec<Value>,
}

/// The tagged value universe. `Real` and `LReal` carry IEEE-754 bit
/// patterns; dates and times of day carry their tick or nanosecond
/// counts.
pub enum Value {
    Bool(bool),
    SInt(i8),
    Int(i16),
    DInt(i32),
    LInt(i64),
    USInt(u8),
    UInt(u16),
    UDInt(u32),
    ULInt(u64),
    Real(u32),
    LReal(u64),
    Byte(u8),
    Word(u16),
    DWord(u32),
    LWord(u64),
    Time(Duration),
    LTime(Duration),
    Date(i64),
    LDate(i64),
    Tod(i64),
    LTod(i64),
    Dt(i64),
    Ldt(i64),
    Char(u8),
    WChar(u16),
    String(String),
    WString(String),
    Array(ArrayValue),
    Struct(StructValue),
    Enum(EnumValue),
    Reference(Option<InstanceId>),
    Instance(InstanceId),
    Null,
}

/// What the historian and debug clients sample: the storage and the
/// runtime's simulated time.
pub struct DebugSnapshot {
    pub storage: VariableStorage,
    pub now: Duration,
}

/// Restart flavours: warm keeps retained variables, cold discards
/// everything.
#[derive(Debug, Clone, Copy, PartialEq, Eq, Structural)]
pub enum RestartMode {
    Warm,
    Cold,
}

/// Mathematical model of a value: strings become character
/// sequences, vectors become sequences, durations become their
/// nanosecond counts.
pub enum ValueModel {
    Bool(bool),
    SInt(i8),
    Int(i16),
    DInt(i32),
    LInt(i64),
    USInt(u8),
    UInt(u16),
    UDInt(u32),
    ULInt(u64),
    Real(u32),
    LReal(u64),
    Byte(u8),
    Word(u16),
    DWord(u32),
    LWord(u64),
    Time(i64),
    LTime(i64),
    Date(i64),
    LDate(i64),
    Tod(i64),
    LTod(i64),
    Dt(i64),
    Ldt(i64),
    Char(u8),
    WChar(u16),
    String(Seq<char>),
    WString(Seq<char>),
    Array(Seq<u32>, Seq<ValueModel>),
    Struct(Seq<char>, Seq<(Seq<char>, ValueModel)>),
    Enum(Seq<char>, Seq<char>, i64),
    Reference(Option<u64>),
    Instance(u64),
    Null,
}

/// The model of a value.
pub open spec fn model(v: Value) -> ValueModel
    decreases v,
{
    match v {
        Value::Bool(x) => ValueModel::Bool(x),
        Value::SInt(x) => ValueModel::SInt(x),
        Value::Int(x) => ValueModel::Int(x),
        Value::DInt(x) => ValueModel::DInt(x),
        Value::LInt(x) => ValueModel::LInt(x),
        Value::USInt(x) => ValueModel::USInt(x),
        Value::UInt(x) => ValueModel::UInt(x),
        Value::UDInt(x) => ValueModel::UDInt(x),
        Value::ULInt(x) => ValueModel::ULInt(x),
        Value::Real(x) => ValueModel::Real(x),
        Value::LReal(x) => ValueModel::LReal(x),
        Value::Byte(x) => ValueModel::Byte(x),
        Value::Word(x) => ValueModel::Word(x),
        Value::DWord(x) => ValueModel::DWord(x),
        Value::LWord(x) => ValueModel::LWord(x),
        Value::Time(d) => ValueModel::Time(d.nanos),
        Value::LTime(d) => ValueModel::LTime(d.nanos),
        Value::Date(x) => ValueModel::Date(x),
        Value::LDate(x) => ValueModel::LDate(x),
        Value::Tod(x) => ValueModel::Tod(x),
        Value::LTod(x) => ValueModel::LTod(x),
        Value::Dt(x) => ValueModel::Dt(x),
        Value::Ldt(x) => ValueModel::Ldt(x),
        Value::Char(x) => ValueModel::Char(x),
        Value::WChar(x) => ValueModel::WChar(x),
        Value::String(t) => ValueModel::String(t@),
        Value::WString(t) => ValueModel::WString(t@),
        Value::Array(a) => ValueModel::Array(a.dimensions@, model_elems(a.elements@)),
        Value::Struct(st) => ValueModel::Struct(st.ty_name@, model_fields(st.fields@)),
        Value::Enum(e) => ValueModel::Enum(e.ty_name@, e.variant_name@, e.numeric_value),
        Value::Reference(r) => ValueModel::Reference(
            match r {
                Some(id) => Some(id.0),
                None => None,
            },
        ),
        Value::Instance(id) => ValueModel::Instance(id.0),
        Value::Null => ValueModel::Null,
    }
}

/// Models of a list of values, in order.
pub open spec fn model_elems(es: Seq<Value>) -> Seq<ValueModel>
    decreases es,
{
    if es.len() == 0 {
        Seq::empty()
    } else {
        model_elems(es.drop_last()).push(model(es.last()))
    }
}

/// Models of named fields, in order.
pub open spec fn model_fields(fs: Seq<(String, Value)>) -> Seq<(Seq<char>, ValueModel)>
    decreases fs,
{
    if fs.len() == 0 {
        Seq::empty()
    } else {
        model_fields(fs.drop_last()).push((fs.last().0@, model(fs.last().1)))
    }
}

/// View of a variable list: each identifier's characters with the
/// model of its value.
pub open spec fn entry_views(entries: Seq<(String, Value)>) -> Seq<(Seq<char>, ValueModel)> {
    entries.map_values(|e: (String, Value)| (e.0@, model(e.1)))
}

/// First value stored under `key`, reading front to back.
pub open spec fn lookup(entries: Seq<(Seq<char>, ValueModel)>, key: Seq<char>) -> Option<ValueModel>
    decreases entries.len(),
{
    if entries.len() == 0 {
        None
    } else if entries[0].0 == key {
        Some(entries[0].1)
    } else {
        lookup(entries.drop_first(), key)
    }
}

/// Last value stored under `key`, the one a sequence of store
/// operations leaves in force.
pub open spec fn last_value(entries: Seq<(Seq<char>, ValueModel)>, key: Seq<char>) -> Option<ValueModel>
    decreases entries.len(),
{
    if entries.len() == 0 {
        None
    } else if entries.last().0 == key {
        Some(entries.last().1)
    } else {
        last_value(entries.drop_last(), key)
    }
}

/// No identifier appears twice.
pub open spec fn unique_keys(entries: Seq<(Seq<char>, ValueModel)>) -> bool {
    forall|i: int, j: int|
        0 <= i < j < entries.len() ==> (#[trigger] entries[i]).0 != (#[trigger] entries[j]).0
}

/// Under unique keys, the first and the last binding agree: a retained
/// snapshot written entry by entry reloads to the same value set.
pub proof fn lemma_unique_lookup_last(entries: Seq<(Seq<char>, ValueModel)>, key: Seq<char>)
    requires
        unique_keys(entries),
    ensures
        lookup(entries, key) == last_value(entries, key),
    decreases entries.len(),
{
    if entries.len() > 0 {
        if entries[0].0 == key {
            lemma_last_skips_back(entries, key);
        } else {
            assert(unique_keys(entries.drop_first())) by {
                assert forall|i: int, j: int|
                    0 <= i < j < entries.drop_first().len() implies (#[trigger] entries.drop_first()[i]).0
                    != (#[trigger] entries.drop_first()[j]).0 by {
                    assert(entries.drop_first()[i] == entries[i + 1]);
                    assert(entries.drop_first()[j] == entries[j + 1]);
                }
            }
            lemma_unique_lookup_last(entries.drop_first(), key);
            lemma_last_front_irrelevant(entries, key);
        }
    }
}

proof fn lemma_last_skips_back(entries: Seq<(Seq<char>, ValueModel)>, key: Seq<char>)
    requires
        entries.len() > 0,
        entries[0].0 == key,
        unique_keys(entries),
    ensures
        last_value(entries, key) == Some(entries[0].1),
    decreases entries.len(),
{
    if entries.len() > 1 {
        assert(entries[0].0 != entries[entries.len() - 1].0);
        assert(entries.drop_last()[0] == entries[0]);
        assert(unique_keys(entries.drop_last())) by {
            assert forall|i: int, j: int|
                0 <= i < j < entries.drop_last().len() implies (#[trigger] entries.drop_last()[i]).0
                != (#[trigger] entries.drop_last()[j]).0 by {
                assert(entries.drop_last()[i] == entries[i]);
                assert(entries.drop_last()[j] == entries[j]);
            }
        }
        lemma_last_skips_back(entries.drop_last(), key);
    }
}

proof fn lemma_last_front_irrelevant(entries: Seq<(Seq<char>, ValueModel)>, key: Seq<char>)
    requires
        entries.len() > 0,
        entries[0].0 != key,
    ensures
        last_value(entries, key) == last_value(entries.drop_first(), key),
    decreases entries.len(),
{
    if entries.len() > 1 {
        assert(entries.drop_first().last() == entries.last());
        if entries.last().0 != key {
            assert(entries.drop_last()[0] == entries[0]);
            lemma_last_front_irrelevant(entries.drop_last(), key);
            assert(entries.drop_last().drop_first() =~= entries.drop_first().drop_last());
            assert(last_value(entries, key) == last_value(entries.drop_last(), key));
            assert(entries.drop_first().len() > 0);
            assert(last_value(entries.drop_first(), key) == last_value(
                entries.drop_first().drop_last(),
                key,
            ));
        }
    } else {
        assert(entries.drop_first() =~= Seq::<(Seq<char>, ValueModel)>::empty());
    }
}

/// What a store ends up holding under `key` after writing `writes`
/// entry by entry over `base`: the last written value wins, else the
/// base binding stands.
pub open spec fn merged_value(
    base: Seq<(Seq<char>, ValueModel)>,
    writes: Seq<(Seq<char>, ValueModel)>,
    key: Seq<char>,
) -> Option<ValueModel> {
    match last_value(writes, key) {
        Some(v) => Some(v),
        None => lookup(base, key),
    }
}

/// Writing a retained snapshot entry by entry into an empty store
/// reads back exactly the snapshot: persisting and reloading retained
/// variables keeps the value set.
pub proof fn lemma_retain_round_trip(retained: Seq<(Seq<char>, ValueModel)>, key: Seq<char>)
    requires
        unique_keys(retained),
    ensures
        merged_value(Seq::empty(), retained, key) == lookup(retained, key),
{
    lemma_unique_lookup_last(retained, key);
}

proof fn lemma_lookup_update(
    s: Seq<(Seq<char>, ValueModel)>,
    i: int,
    v: ValueModel,
    key: Seq<char>,
    k: Seq<char>,
)
    requires
        0 <= i < s.len(),
        s[i].0 == key,
        forall|j: int| 0 <= j < i ==> (#[trigger] s[j]).0 != key,
    ensures
        lookup(s.update(i, (key, v)), k) == if k == key {
            Some(v)
        } else {
            lookup(s, k)
        },
    decreases i,
{
    let u = s.update(i, (key, v));
    if i == 0 {
        if k != key {
            assert(u.drop_first() =~= s.drop_first());
        }
    } else {
        assert(u[0] == s[0]);
        assert(u.drop_first() =~= s.drop_first().update(i - 1, (key, v)));
        assert(s.drop_first()[i - 1] == s[i]);
        assert forall|j: int| 0 <= j < i - 1 implies (#[trigger] s.drop_first()[j]).0 != key by {
            assert(s.drop_first()[j] == s[j + 1]);
        }
        lemma_lookup_update(s.drop_first(), i - 1, v, key, k);
    }
}

proof fn lemma_lookup_push(s: Seq<(Seq<char>, ValueModel)>, v: ValueModel, key: Seq<char>, k: Seq<char>)
    requires
        forall|j: int| 0 <= j < s.len() ==> (#[trigger] s[j]).0 != key,
    ensures
        lookup(s.push((key, v)), k) == if k == key {
            Some(v)
        } else {
            lookup(s, k)
        },
    decreases s.len(),
{
    let u = s.push((key, v));
    if s.len() == 0 {
        assert(u[0] == (key, v));
        if k != key {
            assert(u.drop_first() =~= Seq::<(Seq<char>, ValueModel)>::empty());
        }
    } else {
        assert(u[0] == s[0]);
        assert(u.drop_first() =~= s.drop_first().push((key, v)));
        assert forall|j: int| 0 <= j < s.drop_first().len() implies (
        #[trigger] s.drop_first()[j]).0 != key by {
            assert(s.drop_first()[j] == s[j + 1]);
        }
        lemma_lookup_push(s.drop_first(), v, key, k);
        if u[0].0 == k {
            assert(lookup(u, k) == Some(u[0].1));
            assert(lookup(s, k) == Some(s[0].1));
        } else {
            assert(lookup(u, k) == lookup(u.drop_first(), k));
            assert(lookup(s, k) == lookup(s.drop_first(), k));
        }
    }
}

/// Fields of one live instance, keyed by instance id.
pub open spec fn lookup_instance_raw(
    entries: Seq<(u64, Vec<(String, Value)>)>,
    id: u64,
) -> Option<Vec<(String, Value)>>
    decreases entries.len(),
{
    if entries.len() == 0 {
        None
    } else if entries[0].0 == id {
        Some(entries[0].1)
    } else {
        lookup_instance_raw(entries.drop_first(), id)
    }
}

proof fn lemma_lookup_instance_raw_absent(entries: Seq<(u64, Vec<(String, Value)>)>, id: u64)
    requires
        lookup_instance_raw(entries, id) is None,
    ensures
        forall|i: int| 0 <= i < entries.len() ==> (#[trigger] entries[i]).0 != id,
    decreases entries.len(),
{
    if entries.len() > 0 {
        lemma_lookup_instance_raw_absent(entries.drop_first(), id);
        assert forall|i: int| 0 <= i < entries.len() implies (#[trigger] entries[i]).0 != id by {
            if i > 0 {
                assert(entries.drop_first()[i - 1] == entries[i]);
            }
        }
    }
}

/// The three keyed stores of the runtime: globals, retained variables,
/// and instances.
pub struct VariableStorage {
    globals: Vec<(String, Value)>,
    retain: Vec<(String, Value)>,
    instances: Vec<(u64, Vec<(String, Value)>)>,
}

impl Default for VariableStorage {
    /// An empty storage.
    fn default() -> (r: VariableStorage)
        ensures
            r.globals_view() == Seq::<(Seq<char>, ValueModel)>::empty(),
            r.retain_view() == Seq::<(Seq<char>, ValueModel)>::empty(),
            r.instances_view() == Seq::<(u64, Seq<(Seq<char>, ValueModel)>)>::empty(),
            r.wf(),
    {
        let r = VariableStorage { globals: Vec::new(), retain: Vec::new(), instances: Vec::new() };
        proof {
            assert(r.globals_view() =~= Seq::<(Seq<char>, ValueModel)>::empty());
            assert(r.retain_view() =~= Seq::<(Seq<char>, ValueModel)>::empty());
            assert(r.instances_view() =~= Seq::<(u64, Seq<(Seq<char>, ValueModel)>)>::empty());
        }
        r
    }
}

impl VariableStorage {
    /// The raw global entries; the ground truth flattening walks.
    pub closed spec fn globals_raw(&self) -> Seq<(String, Value)> {
        self.globals@
    }

    /// The raw retained entries.
    pub closed spec fn retain_raw(&self) -> Seq<(String, Value)> {
        self.retain@
    }

    /// The global bindings, in insertion order.
    pub open spec fn globals_view(&self) -> Seq<(Seq<char>, ValueModel)> {
        entry_views(self.globals_raw())
    }

    /// The retained bindings, in insertion order.
    pub open spec fn retain_view(&self) -> Seq<(Seq<char>, ValueModel)> {
        entry_views(self.retain_raw())
    }

    /// The live instances, in creation order.
    pub closed spec fn instances_view(&self) -> Seq<(u64, Seq<(Seq<char>, ValueModel)>)> {
        self.instances@.map_values(
            |e: (u64, Vec<(String, Value)>)| (e.0, entry_views(e.1@)),
        )
    }

    /// Identifiers are unique in each store.
    pub open spec fn wf(&self) -> bool {
        &&& unique_keys(self.globals_view())
        &&& unique_keys(self.retain_view())
        &&& forall|i: int, j: int|
            0 <= i < j < self.instances_view().len() ==> (#[trigger] self.instances_view()[i]).0
                != (#[trigger] self.instances_view()[j]).0
    }

    /// The global entries themselves, for iteration.
    pub fn globals(&self) -> (r: &Vec<(String, Value)>)
        ensures
            r@ == self.globals_raw(),
    {
        &self.globals
    }

    /// The retained entries themselves, for iteration.
    pub fn retain(&self) -> (r: &Vec<(String, Value)>)
        ensures
            r@ == self.retain_raw(),
    {
        &self.retain
    }

    /// Binds a global: an existing binding of the same identifier is
    /// replaced in place, a new one is appended.
    pub fn set_global(&mut self, name: &str, value: Value)
        requires
            old(self).wf(),
        ensures
            final(self).wf(),
            lookup(final(self).globals_view(), name@) == Some(model(value)),
            forall|k: Seq<char>|
                k != name@ ==> #[trigger] lookup(final(self).globals_view(), k) == lookup(
                    old(self).globals_view(),
                    k,
                ),
            final(self).retain_view() == old(self).retain_view(),
            final(self).instances_view() == old(self).instances_view(),
            final(self).globals_view().len() <= old(self).globals_view().len() + 1,
    {
        let mut entries = Vec::new();
        core::mem::swap(&mut entries, &mut self.globals);
        let entries = set_entry(entries, name, value);
        self.globals = entries;
        proof {
            assert(unique_keys(self.globals_view()));
            assert(unique_keys(self.retain_view()));
            assert(self.instances_view() == old(self).instances_view());
            assert(forall|i: int, j: int|
                0 <= i < j < self.instances_view().len() ==> (
                #[trigger] self.instances_view()[i]).0 != (
                #[trigger] self.instances_view()[j]).0);
        }
    }

    /// Reads a global binding.
    pub fn get_global(&self, name: &str) -> (r: Option<&Value>)
        ensures
            match r {
                Some(v) => lookup(self.globals_view(), name@) == Some(model(*v)),
                None => lookup(self.globals_view(), name@) is None,
            },
    {
        get_entry(&self.globals, name)
    }

    /// Binds a retained variable, like [`VariableStorage::set_global`].
    pub fn set_retain(&mut self, name: &str, value: Value)
        requires
            old(self).wf(),
        ensures
            final(self).wf(),
            lookup(final(self).retain_view(), name@) == Some(model(value)),
            forall|k: Seq<char>|
                k != name@ ==> #[trigger] lookup(final(self).retain_view(), k) == lookup(
                    old(self).retain_view(),
                    k,
                ),
            final(self).globals_view() == old(self).globals_view(),
            final(self).instances_view() == old(self).instances_view(),
    {
        let mut entries = Vec::new();
        core::mem::swap(&mut entries, &mut self.retain);
        let entries = set_entry(entries, name, value);
        self.retain = entries;
        proof {
            assert(unique_keys(self.globals_view()));
            assert(unique_keys(self.retain_view()));
            assert(self.instances_view() == old(self).instances_view());
            assert(forall|i: int, j: int|
                0 <= i < j < self.instances_view().len() ==> (
                #[trigger] self.instances_view()[i]).0 != (
                #[trigger] self.instances_view()[j]).0);
        }
    }

    /// Reads a retained binding.
    pub fn get_retain(&self, name: &str) -> (r: Option<&Value>)
        ensures
            match r {
                Some(v) => lookup(self.retain_view(), name@) == Some(model(*v)),
                None => lookup(self.retain_view(), name@) is None,
            },
    {
        get_entry(&self.retain, name)
    }

    /// The raw instance entries; the ground truth the historian's
    /// flattening walks.
    pub closed spec fn instances_raw(&self) -> Seq<(u64, Vec<(String, Value)>)> {
        self.instances@
    }

    /// Creates or replaces an instance's fields wholesale.
    pub fn set_instance(&mut self, id: u64, fields: Vec<(String, Value)>)
        requires
            old(self).wf(),
            lookup_instance_raw(old(self).instances_raw(), id) is None,
        ensures
            final(self).wf(),
            final(self).instances_raw() == old(self).instances_raw().push((id, fields)),
            final(self).globals_view() == old(self).globals_view(),
            final(self).retain_view() == old(self).retain_view(),
    {
        proof {
            lemma_lookup_instance_raw_absent(self.instances_raw(), id);
        }
        self.instances.push((id, fields));
        proof {
            let iv = final(self).instances_view();
            let ov = old(self).instances_view();
            assert(iv =~= ov.push(
                (id, entry_views(final(self).instances_raw().last().1@)),
            ));
            assert forall|i: int, j: int| 0 <= i < j < iv.len() implies (#[trigger] iv[i]).0 != (
            #[trigger] iv[j]).0 by {
                if j < ov.len() {
                    assert(iv[i] == ov[i]);
                    assert(iv[j] == ov[j]);
                } else {
                    assert(iv[i] == ov[i]);
                    assert(iv[j].0 == id);
                    assert(ov[i].0 != id);
                }
            }
        }
    }

    /// Reads the fields of a live instance.
    pub fn get_instance(&self, id: u64) -> (r: Option<&Vec<(String, Value)>>)
        ensures
            match r {
                Some(fields) => lookup_instance_raw(self.instances_raw(), id) == Some(*fields),
                None => lookup_instance_raw(self.instances_raw(), id) is None,
            },
    {
        let ghost iv = self.instances_raw();
        let n = self.instances.len();
        let mut i: usize = 0;
        proof {
            assert(iv.skip(0) =~= iv);
        }
        while i < n
            invariant
                n == self.instances@.len(),
                i <= n,
                iv == self.instances_raw(),
                lookup_instance_raw(iv, id) == lookup_instance_raw(iv.skip(i as int), id),
            decreases n - i,
        {
            proof {
                assert(iv.skip(i as int)[0] == iv[i as int]);
                assert(iv.skip(i as int).drop_first() =~= iv.skip(i + 1));
            }
            if self.instances[i].0 == id {
                return Some(&self.instances[i].1);
            }
            i = i + 1;
        }
        proof {
            assert(iv.skip(n as int) =~= Seq::<(u64, Vec<(String, Value)>)>::empty());
        }
        None
    }

    /// A copy of the retained bindings, for persistence.
    pub fn retain_snapshot(&self) -> (r: Vec<(String, Value)>)
        ensures
            entry_views(r@) == self.retain_view(),
    {
        let n = self.retain.len();
        let mut out: Vec<(String, Value)> = Vec::new();
        let mut i: usize = 0;
        while i < n
            invariant
                n == self.retain@.len(),
                i <= n,
                out@.len() == i as int,
                forall|j: int|
                    0 <= j < i ==> #[trigger] entry_views(out@)[j] == self.retain_view()[j],
            decreases n - i,
        {
            let entry = &self.retain[i];
            let key = entry.0.clone();
            let val = clone_value(&entry.1);
            let ghost prev = out@;
            out.push((key, val));
            i = i + 1;
            proof {
                assert forall|j: int| 0 <= j < i implies #[trigger] entry_views(out@)[j]
                    == self.retain_view()[j] by {
                    assert(entry_views(out@)[j] == (out@[j].0@, model(out@[j].1)));
                    if j < i - 1 {
                        assert(out@[j] == prev[j]);
                        assert(entry_views(prev)[j] == (prev[j].0@, model(prev[j].1)));
                    } else {
                        assert(self.retain_view()[j] == (
                            self.retain@[j].0@,
                            model(self.retain@[j].1),
                        ));
                    }
                }
            }
        }
        proof {
            assert(entry_views(out@) =~= self.retain_view());
        }
        out
    }

    /// Writes loaded retained entries over the store, in order: the
    /// last write of an identifier wins, untouched identifiers keep
    /// their value.
    pub fn merge_retained(&mut self, entries: Vec<(String, Value)>)
        requires
            old(self).wf(),
        ensures
            final(self).wf(),
            forall|k: Seq<char>|
                #[trigger] lookup(final(self).retain_view(), k) == merged_value(
                    old(self).retain_view(),
                    entry_views(entries@),
                    k,
                ),
            final(self).globals_view() == old(self).globals_view(),
            final(self).instances_view() == old(self).instances_view(),
    {
        let ghost es = entry_views(entries@);
        let n = entries.len();
        let mut i: usize = 0;
        while i < n
            invariant
                n == entries@.len(),
                es == entry_views(entries@),
                i <= n,
                self.wf(),
                self.globals_view() == old(self).globals_view(),
                self.instances_view() == old(self).instances_view(),
                forall|k: Seq<char>|
                    #[trigger] lookup(self.retain_view(), k) == merged_value(
                        old(self).retain_view(),
                        es.take(i as int),
                        k,
                    ),
            decreases n - i,
        {
            let entry = &entries[i];
            let ghost key = entry.0@;
            let ghost val = model(entry.1);
            let v = clone_value(&entry.1);
            self.set_retain(entry.0.as_str(), v);
            i = i + 1;
            proof {
                assert(es.take(i as int).last() == (key, val));
                assert(es.take(i as int).drop_last() =~= es.take(i - 1));
                assert forall|k: Seq<char>| #[trigger] lookup(self.retain_view(), k)
                    == merged_value(old(self).retain_view(), es.take(i as int), k) by {
                    if k == key {
                        assert(last_value(es.take(i as int), k) == Some(val));
                    } else {
                        assert(last_value(es.take(i as int), k) == last_value(es.take(i - 1), k));
                    }
                }
            }
        }
        proof {
            assert(es.take(n as int) =~= es);
        }
    }
}

fn get_entry<'a>(entries: &'a Vec<(String, Value)>, name: &str) -> (r: Option<&'a Value>)
    ensures
        match r {
            Some(v) => lookup(entry_views(entries@), name@) == Some(model(*v)),
            None => lookup(entry_views(entries@), name@) is None,
        },
{
    let ghost ev = entry_views(entries@);
    let nm = crate::strutil::chars_of(name);
    let n = entries.len();
    let mut i: usize = 0;
    proof {
        assert(ev.skip(0) =~= ev);
    }
    while i < n
        invariant
            n == entries@.len(),
            i <= n,
            ev == entry_views(entries@),
            nm@ == name@,
            lookup(ev, name@) == lookup(ev.skip(i as int), name@),
        decreases n - i,
    {
        proof {
            assert(ev.skip(i as int)[0] == ev[i as int]);
            assert(ev.skip(i as int).drop_first() =~= ev.skip(i + 1));
        }
        let kc = crate::strutil::chars_of(entries[i].0.as_str());
        if crate::strutil::eq_chars(&kc, &nm) {
            return Some(&entries[i].1);
        }
        i = i + 1;
    }
    proof {
        assert(ev.skip(n as int) =~= Seq::<(Seq<char>, ValueModel)>::empty());
    }
    None
}

#[verifier::loop_isolation(false)]
fn set_entry(entries: Vec<(String, Value)>, name: &str, value: Value) -> (r: Vec<(String, Value)>)
    requires
        unique_keys(entry_views(entries@)),
    ensures
        unique_keys(entry_views(r@)),
        lookup(entry_views(r@), name@) == Some(model(value)),
        forall|k: Seq<char>|
            k != name@ ==> #[trigger] lookup(entry_views(r@), k) == lookup(
                entry_views(entries@),
                k,
            ),
        entry_views(r@).len() <= entry_views(entries@).len() + 1,
{
    let ghost ev = entry_views(entries@);
    let nm = crate::strutil::chars_of(name);
    let n = entries.len();
    let mut i: usize = 0;
    let mut cur = entries;
    while i < n
        invariant
            n == cur@.len(),
            i <= n,
            ev == entry_views(cur@),
            unique_keys(ev),
            nm@ == name@,
            forall|j: int| 0 <= j < i ==> (#[trigger] ev[j]).0 != name@,
        decreases n - i,
    {
        let kc = crate::strutil::chars_of(cur[i].0.as_str());
        if crate::strutil::eq_chars(&kc, &nm) {
            proof {
                assert(ev[i as int].0 == name@);
            }
            cur.set(i, (name.to_owned(), value));
            proof {
                let nv = entry_views(cur@);
                assert(nv =~= ev.update(i as int, (name@, model(value))));
                lemma_lookup_update(ev, i as int, model(value), name@, name@);
                assert forall|k: Seq<char>| k != name@ implies #[trigger] lookup(nv, k) == lookup(
                    ev,
                    k,
                ) by {
                    lemma_lookup_update(ev, i as int, model(value), name@, k);
                }
                assert forall|a: int, b: int| 0 <= a < b < nv.len() implies (#[trigger] nv[a]).0
                    != (#[trigger] nv[b]).0 by {
                    if a != i && b != i {
                        assert(nv[a] == ev[a]);
                        assert(nv[b] == ev[b]);
                        assert(ev[a].0 != ev[b].0);
                    } else if a == i {
                        assert(nv[a] == (name@, model(value)));
                        assert(nv[b] == ev[b]);
                        assert(ev[a].0 == name@);
                        assert(ev[a].0 != ev[b].0);
                    } else {
                        assert(nv[b] == (name@, model(value)));
                        assert(nv[a] == ev[a]);
                        assert(ev[b].0 == name@);
                        assert(ev[a].0 != ev[b].0);
                    }
                }
            }
            return cur;
        }
        i = i + 1;
    }
    proof {
        lemma_lookup_push(ev, model(value), name@, name@);
    }
    cur.push((name.to_owned(), value));
    proof {
        let nv = entry_views(cur@);
        assert(nv =~= ev.push((name@, model(value))));
        assert forall|k: Seq<char>| k != name@ implies #[trigger] lookup(nv, k) == lookup(
            ev,
            k,
        ) by {
            lemma_lookup_push(ev, model(value), name@, k);
        }
        assert forall|a: int, b: int| 0 <= a < b < nv.len() implies (#[trigger] nv[a]).0 != (
        #[trigger] nv[b]).0 by {
            if b < ev.len() {
                assert(nv[a] == ev[a]);
                assert(nv[b] == ev[b]);
                assert(ev[a].0 != ev[b].0);
            } else {
                assert(nv[a] == ev[a]);
                assert(nv[b] == (name@, model(value)));
                assert(ev[a].0 != name@);
            }
        }
    }
    cur
}

/// A deep copy of a value, with the same model as the original.
#[verifier::loop_isolation(false)]
pub fn clone_value(v: &Value) -> (r: Value)
    ensures
        model(r) == model(*v),
    decreases v,
{
    broadcast use vstd::std_specs::vec::axiom_vec_index_decreases;

    match v {
        Value::Bool(x) => Value::Bool(*x),
        Value::SInt(x) => Value::SInt(*x),
        Value::Int(x) => Value::Int(*x),
        Value::DInt(x) => Value::DInt(*x),
        Value::LInt(x) => Value::LInt(*x),
        Value::USInt(x) => Value::USInt(*x),
        Value::UInt(x) => Value::UInt(*x),
        Value::UDInt(x) => Value::UDInt(*x),
        Value::ULInt(x) => Value::ULInt(*x),
        Value::Real(x) => Value::Real(*x),
        Value::LReal(x) => Value::LReal(*x),
        Value::Byte(x) => Value::Byte(*x),
        Value::Word(x) => Value::Word(*x),
        Value::DWord(x) => Value::DWord(*x),
        Value::LWord(x) => Value::LWord(*x),
        Value::Time(x) => Value::Time(*x),
        Value::LTime(x) => Value::LTime(*x),
        Value::Date(x) => Value::Date(*x),
        Value::LDate(x) => Value::LDate(*x),
        Value::Tod(x) => Value::Tod(*x),
        Value::LTod(x) => Value::LTod(*x),
        Value::Dt(x) => Value::Dt(*x),
        Value::Ldt(x) => Value::Ldt(*x),
        Value::Char(x) => Value::Char(*x),
        Value::WChar(x) => Value::WChar(*x),
        Value::String(s) => Value::String(s.clone()),
        Value::WString(s) => Value::WString(s.clone()),
        Value::Array(a) => {
            let n = a.elements.len();
            let mut elements: Vec<Value> = Vec::new();
            let mut i: usize = 0;
            while i < n
                invariant
                    n == a.elements@.len(),
                    i <= n,
                    elements@.len() == i as int,
                    model_elems(elements@) == model_elems(a.elements@.take(i as int)),
                decreases n - i,
            {
                proof {
                    assert(decreases_to!(*v => a.elements));
                    assert(decreases_to!(a.elements => a.elements@));
                    assert(decreases_to!(a.elements@ => a.elements@[i as int]));
                    assert(decreases_to!(*v => a.elements@[i as int]));
                }
                let ghost prev = elements@;
                let c = clone_value(&a.elements[i]);
                elements.push(c);
                i = i + 1;
                proof {
                    assert(elements@.drop_last() =~= prev);
                    assert(a.elements@.take(i as int).drop_last() =~= a.elements@.take(i - 1));
                    assert(model_elems(elements@) == model_elems(prev).push(model(c)));
                    assert(model_elems(a.elements@.take(i as int)) == model_elems(
                        a.elements@.take(i - 1),
                    ).push(model(a.elements@[i - 1])));
                }
            }
            let mut dimensions: Vec<u32> = Vec::new();
            let dn = a.dimensions.len();
            let mut i: usize = 0;
            while i < dn
                invariant
                    dn == a.dimensions@.len(),
                    i <= dn,
                    dimensions@ == a.dimensions@.take(i as int),
                decreases dn - i,
            {
                dimensions.push(a.dimensions[i]);
                i = i + 1;
                proof {
                    assert(dimensions@ =~= a.dimensions@.take(i as int));
                }
            }
            proof {
                assert(a.elements@.take(n as int) =~= a.elements@);
                assert(dimensions@ =~= a.dimensions@);
            }
            Value::Array(ArrayValue { dimensions, elements })
        },
        Value::Struct(s) => {
            let n = s.fields.len();
            let mut fields: Vec<(String, Value)> = Vec::new();
            let mut i: usize = 0;
            while i < n
                invariant
                    n == s.fields@.len(),
                    i <= n,
                    fields@.len() == i as int,
                    model_fields(fields@) == model_fields(s.fields@.take(i as int)),
                decreases n - i,
            {
                let entry = &s.fields[i];
                proof {
                    assert(decreases_to!(*v => s.fields));
                    assert(decreases_to!(s.fields => s.fields@));
                    assert(decreases_to!(s.fields@ => s.fields@[i as int]));
                    assert(decreases_to!(s.fields@[i as int] => s.fields@[i as int].1));
                    assert(decreases_to!(*v => s.fields@[i as int].1));
                }
                let ghost prev = fields@;
                let ck = entry.0.clone();
                let cv = clone_value(&entry.1);
                fields.push((ck, cv));
                i = i + 1;
                proof {
                    assert(fields@.drop_last() =~= prev);
                    assert(s.fields@.take(i as int).drop_last() =~= s.fields@.take(i - 1));
                    assert(model_fields(fields@) == model_fields(prev).push((ck@, model(cv))));
                    assert(model_fields(s.fields@.take(i as int)) == model_fields(
                        s.fields@.take(i - 1),
                    ).push((s.fields@[i - 1].0@, model(s.fields@[i - 1].1))));
                }
            }
            proof {
                assert(s.fields@.take(n as int) =~= s.fields@);
            }
            Value::Struct(StructValue { ty_name: s.ty_name.clone(), fields })
        },
        Value::Enum(e) => Value::Enum(
            EnumValue {
                ty_name: e.ty_name.clone(),
                variant_name: e.variant_name.clone(),
                numeric_value: e.numeric_value,
            },
        ),
        Value::Reference(r) => Value::Reference(*r),
        Value::Instance(id) => Value::Instance(*id),
        Value::Null => Value::Null,
    }
}

} // verus!
