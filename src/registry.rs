use vstd::prelude::*;

use crate::error::ProtocolError;
use crate::identifier::{identifier_chars, Identifier, IdentifierView};
use crate::world::{
    fediverse, fediverse_id, plains, plains_id, register_biomes, register_dimension_types,
    tootlands, tootlands_id, Biome, DimensionType,
};
use crate::nbt::{entries_view, entry, nbts_view, push_entry, Nbt, NbtView, ToNbt};

verus! {

/// No key appears twice.
pub open spec fn keys_unique(keys: Seq<IdentifierView>) -> bool {
    forall|i: int, j: int| 0 <= i < keys.len() && 0 <= j < keys.len() && i != j ==> keys[i] != keys[j]
}

/// The numeric id of `k`: its position among the keys.
pub open spec fn id_in(keys: Seq<IdentifierView>, k: IdentifierView) -> Option<nat> {
    if keys.contains(k) {
        Some(choose|i: nat| i < keys.len() && keys[i as int] == k)
    } else {
        None
    }
}

/// Registering a new key gives it the next id, `n` for the `n` keys before
/// it, and leaves every earlier key its id; ids stay dense and unique.
pub proof fn lemma_register_ids(keys: Seq<IdentifierView>, k: IdentifierView)
    requires
        keys_unique(keys),
        !keys.contains(k),
    ensures
        keys_unique(keys.push(k)),
        id_in(keys.push(k), k) == Some(keys.len()),
        forall|j: int| 0 <= j < keys.len() ==> id_in(keys.push(k), #[trigger] keys[j]) == Some(j as nat),
{
    let ks = keys.push(k);
    assert(ks[keys.len() as int] == k);
    assert(ks.contains(k));
    assert forall|j: int| 0 <= j < keys.len() implies id_in(ks, #[trigger] keys[j]) == Some(
        j as nat,
    ) by {
        assert(ks[j] == keys[j]);
        assert(ks.contains(keys[j]));
        let c = choose|i: nat| i < ks.len() && ks[i as int] == keys[j];
        if c != j {
            if c < keys.len() {
                assert(keys[c as int] == keys[j]);
            } else {
                assert(keys.contains(k));
            }
        }
    }
    let c = choose|i: nat| i < ks.len() && ks[i as int] == k;
    if c < keys.len() {
        assert(keys[c as int] == k);
    }
}

/// A name-to-value table with ids given in insertion order. It is set up
/// once, then only grows, and never holds a key twice.
pub struct Registry<T> {
    id: Identifier,
    entries: Option<Vec<(Identifier, T)>>,
}

impl<T> Registry<T> {
    /// The registry's own name.
    pub closed spec fn name(&self) -> IdentifierView {
        self.id@
    }

    pub fn id(&self) -> (r: &Identifier)
        ensures
            r@ == self.name(),
    {
        &self.id
    }

    pub closed spec fn initialized(&self) -> bool {
        self.entries is Some
    }

    /// The keys, in insertion order; a key's position is its id.
    pub closed spec fn keys(&self) -> Seq<IdentifierView> {
        match self.entries {
            Some(v) => v@.map_values(|e: (Identifier, T)| e.0@),
            None => Seq::empty(),
        }
    }

    /// The values, in insertion order.
    pub closed spec fn values(&self) -> Seq<T> {
        match self.entries {
            Some(v) => v@.map_values(|e: (Identifier, T)| e.1),
            None => Seq::empty(),
        }
    }

    pub open spec fn wf(&self) -> bool {
        keys_unique(self.keys()) && self.keys().len() == self.values().len()
    }

    /// A registry named `id` that is not set up yet.
    pub fn new(id: Identifier) -> (r: Self)
        ensures
            !r.initialized(),
            r.name() == id@,
            r.wf(),
            r.keys().len() == 0,
    {
        Registry { id, entries: None }
    }

    /// Sets the registry up, empty.
    pub fn init(&mut self)
        requires
            !old(self).initialized(),
        ensures
            final(self).initialized(),
            final(self).keys() == Seq::<IdentifierView>::empty(),
            final(self).values() == Seq::<T>::empty(),
            final(self).name() == old(self).name(),
            final(self).wf(),
    {
        self.entries = Some(Vec::new());
        proof {
            assert(self.keys() =~= Seq::<IdentifierView>::empty());
            assert(self.values() =~= Seq::<T>::empty());
        }
    }

    /// The number of entries.
    pub fn len(&self) -> (r: usize)
        requires
            self.wf(),
        ensures
            r == self.keys().len(),
    {
        match &self.entries {
            Some(v) => v.len(),
            None => 0,
        }
    }

    /// The id of `key`, if it is registered.
    pub fn id_of(&self, key: &Identifier) -> (r: Option<usize>)
        requires
            self.wf(),
        ensures
            match r {
                Some(i) => id_in(self.keys(), key@) == Some(i as nat),
                None => !self.keys().contains(key@),
            },
    {
        match &self.entries {
            None => None,
            Some(v) => {
                let mut i: usize = 0;
                while i < v.len()
                    invariant
                        i <= v@.len(),
                        self.entries == Some(*v),
                        self.wf(),
                        forall|k: int| 0 <= k < i ==> self.keys()[k] != key@,
                    decreases v.len() - i,
                {
                    if v[i].0.same_as(key) {
                        proof {
                            assert(self.keys()[i as int] == key@);
                            assert(self.keys().contains(key@));
                            let c = choose|c: nat|
                                c < self.keys().len() && self.keys()[c as int] == key@;
                            if c != i as nat {
                                assert(self.keys()[c as int] != self.keys()[i as int]);
                            }
                        }
                        return Some(i);
                    }
                    i = i + 1;
                }
                None
            },
        }
    }

    /// Adds `value` under `key` with the next id, which it returns; fails,
    /// changing nothing, when `key` is already registered.
    pub fn register(&mut self, key: Identifier, value: T) -> (r: Result<usize, ProtocolError>)
        requires
            old(self).initialized(),
            old(self).wf(),
        ensures
            final(self).wf(),
            final(self).initialized(),
            final(self).name() == old(self).name(),
            match r {
                Ok(id) => !old(self).keys().contains(key@) && id == old(self).keys().len()
                    && final(self).keys() == old(self).keys().push(key@) && final(self).values()
                    == old(self).values().push(value),
                Err(e) => old(self).keys().contains(key@) && e
                    == ProtocolError::DuplicateRegistryKey && final(self).keys() == old(
                    self,
                ).keys() && final(self).values() == old(self).values(),
            },
    {
        if let Some(_) = self.id_of(&key) {
            return Err(ProtocolError::DuplicateRegistryKey);
        }
        let ghost old_keys = self.keys();
        let ghost old_values = self.values();
        let ghost k = key@;
        let n = self.len();
        match &mut self.entries {
            Some(v) => {
                v.push((key, value));
            },
            None => {},
        }
        proof {
            assert(self.keys() =~= old_keys.push(k));
            assert(self.values() =~= old_values.push(value));
            lemma_register_ids(old_keys, k);
        }
        Ok(n)
    }

    /// The entry with id `i`.
    pub fn entry(&self, i: usize) -> (r: (&Identifier, &T))
        requires
            self.wf(),
            i < self.keys().len(),
        ensures
            r.0@ == self.keys()[i as int],
            *r.1 == self.values()[i as int],
    {
        match &self.entries {
            Some(v) => (&v[i].0, &v[i].1),
            None => vstd::pervasive::unreached(),
        }
    }
}

/// One entry of a registry in NBT: its name, id and element.
pub open spec fn registry_entry_nbt(name: IdentifierView, id: int, element: NbtView) -> NbtView {
    NbtView::Compound(
        entry("name"@, NbtView::Str(identifier_chars(name))) + entry(
            "id"@,
            NbtView::Int(id as i32),
        ) + entry("element"@, element),
    )
}

/// The entries of a registry in NBT, in id order.
pub open spec fn registry_entries_nbt<T: ToNbt>(keys: Seq<IdentifierView>, values: Seq<T>) -> Seq<
    NbtView,
> {
    Seq::new(keys.len(), |i: int| registry_entry_nbt(keys[i], i, values[i].nbt_spec()))
}

/// A registry in NBT: its name as `type`, its entries as `value`.
pub open spec fn registry_nbt<T: ToNbt>(
    name: IdentifierView,
    keys: Seq<IdentifierView>,
    values: Seq<T>,
) -> NbtView {
    NbtView::Compound(
        entry("type"@, NbtView::Str(identifier_chars(name))) + entry(
            "value"@,
            NbtView::List(registry_entries_nbt(keys, values)),
        ),
    )
}

proof fn lemma_nbts_push(s: Seq<Nbt>, t: Nbt)
    ensures
        nbts_view(s.push(t)) == nbts_view(s).push(t@),
{
    assert(s.push(t).subrange(0, s.len() as int) == s);
}

impl<T: ToNbt> Registry<T> {
    /// This registry in NBT.
    pub fn to_nbt(&self) -> (r: Nbt)
        requires
            self.wf(),
            self.keys().len() <= i32::MAX,
        ensures
            r@ == registry_nbt(self.name(), self.keys(), self.values()),
    {
        let n = self.len();
        let mut items: Vec<Nbt> = Vec::new();
        let mut i: usize = 0;
        while i < n
            invariant
                self.wf(),
                n == self.keys().len() <= i32::MAX,
                i <= n,
                nbts_view(items@) =~= registry_entries_nbt(self.keys(), self.values()).subrange(
                    0,
                    i as int,
                ),
            decreases n - i,
        {
            let (key, value) = self.entry(i);
            let mut fields: Vec<(String, Nbt)> = Vec::new();
            assert(entries_view(fields@) =~= Seq::<(Seq<char>, NbtView)>::empty());
            push_entry(&mut fields, "name", Nbt::String(key.to_string()));
            push_entry(&mut fields, "id", Nbt::Int(i as i32));
            push_entry(&mut fields, "element", value.element_nbt());
            let item = Nbt::Compound(fields);
            assert(item@ == registry_entry_nbt(self.keys()[i as int], i as int, self.values()[i as int].nbt_spec()));
            let ghost before = items@;
            items.push(item);
            proof {
                lemma_nbts_push(before, item);
            }
            i = i + 1;
        }
        let mut fields: Vec<(String, Nbt)> = Vec::new();
        assert(entries_view(fields@) =~= Seq::<(Seq<char>, NbtView)>::empty());
        push_entry(&mut fields, "type", Nbt::String(self.id().to_string()));
        let ghost list_view = nbts_view(items@);
        assert(list_view =~= registry_entries_nbt(self.keys(), self.values()));
        push_entry(&mut fields, "value", Nbt::List(items));
        assert(entries_view(fields@) =~= registry_nbt(self.name(), self.keys(), self.values())->Compound_0);
        Nbt::Compound(fields)
    }
}

/// The registries a client receives when it enters play.
pub struct Registries {
    pub biome: Registry<Biome>,
    pub message_type: Registry<()>,
    pub dimension_type: Registry<DimensionType>,
}

impl Registries {
    pub open spec fn wf(&self) -> bool {
        self.biome.wf() && self.message_type.wf() && self.dimension_type.wf()
            && self.biome.keys().len() <= i32::MAX && self.message_type.keys().len() <= i32::MAX
            && self.dimension_type.keys().len() <= i32::MAX
    }

    /// All registries in one compound, each under its own name.
    pub open spec fn nbt_spec(&self) -> NbtView {
        NbtView::Compound(
            entry(
                "minecraft:worldgen/biome"@,
                registry_nbt(self.biome.name(), self.biome.keys(), self.biome.values()),
            ) + entry(
                "minecraft:chat_type"@,
                registry_nbt(
                    self.message_type.name(),
                    self.message_type.keys(),
                    self.message_type.values(),
                ),
            ) + entry(
                "minecraft:dimension_type"@,
                registry_nbt(
                    self.dimension_type.name(),
                    self.dimension_type.keys(),
                    self.dimension_type.values(),
                ),
            ),
        )
    }

    /// The registries as an NBT document.
    pub fn to_document(&self) -> (r: Result<Vec<u8>, ProtocolError>)
        requires
            self.wf(),
        ensures
            r is Ok <==> crate::nbt::encodable(self.nbt_spec()),
            r matches Ok(b) ==> b@ == crate::nbt::document(self.nbt_spec()),
    {
        let mut fields: Vec<(String, Nbt)> = Vec::new();
        assert(entries_view(fields@) =~= Seq::<(Seq<char>, NbtView)>::empty());
        push_entry(&mut fields, "minecraft:worldgen/biome", self.biome.to_nbt());
        push_entry(&mut fields, "minecraft:chat_type", self.message_type.to_nbt());
        push_entry(&mut fields, "minecraft:dimension_type", self.dimension_type.to_nbt());
        let root = Nbt::Compound(fields);
        assert(root@ == self.nbt_spec());
        root.to_document()
    }
}

/// Sets up the registries: the server's biome and plains, no message
/// types, and the server's dimension type.
pub fn init() -> (r: Registries)
    ensures
        r.wf(),
        r.biome.initialized() && r.message_type.initialized() && r.dimension_type.initialized(),
        r.biome.keys() == seq![tootlands_id(), plains_id()],
        r.biome.values() == seq![tootlands(), plains()],
        r.message_type.keys().len() == 0,
        r.dimension_type.keys() == seq![fediverse_id()],
        r.dimension_type.values() == seq![fediverse()],
{
    proof {
        reveal_strlit("worldgen/biome");
        reveal_strlit("chat_type");
        reveal_strlit("dimension_type");
        assert(crate::identifier::valid_path("worldgen/biome"@));
        assert(crate::identifier::valid_path("chat_type"@));
        assert(crate::identifier::valid_path("dimension_type"@));
    }
    let mut biome = Registry::new(Identifier::minecraft("worldgen/biome"));
    biome.init();
    let mut message_type: Registry<()> = Registry::new(Identifier::minecraft("chat_type"));
    message_type.init();
    let mut dimension_type = Registry::new(Identifier::minecraft("dimension_type"));
    dimension_type.init();
    let b = register_biomes(&mut biome);
    let d = register_dimension_types(&mut dimension_type);
    proof {
        assert(Seq::<IdentifierView>::empty().push(tootlands_id()).push(plains_id()) =~= seq![
            tootlands_id(),
            plains_id(),
        ]);
        assert(Seq::<Biome>::empty().push(tootlands()).push(plains()) =~= seq![
            tootlands(),
            plains(),
        ]);
        assert(Seq::<IdentifierView>::empty().push(fediverse_id()) =~= seq![fediverse_id()]);
        assert(Seq::<DimensionType>::empty().push(fediverse()) =~= seq![fediverse()]);
    }
    Registries { biome, message_type, dimension_type }
}

} // verus!
