//! The registry of protocols that the server listens for.

use vstd::prelude::*;

use crate::model::ProtocolKind;
use crate::text::{chars_eq, chars_of, string_from_str};

verus! {

/// How a protocol reaches the server.
#[derive(Debug, Clone, Copy, PartialEq, Eq, Structural)]
pub enum Transport {
    Tcp,
    Udp,
    Both,
}

/// A protocol the server can serve: its name, transport and default port,
/// which decoder, encoder and framer serve it (by `kind`), and the command
/// types its encoder accepts.
#[derive(Debug, Clone, PartialEq)]
pub struct ProtocolDefinition {
    pub name: String,
    pub transport: Transport,
    pub default_port: u16,
    pub kind: ProtocolKind,
    pub supported_commands: Vec<String>,
}

pub struct ProtocolDefinitionModel {
    pub name: Seq<char>,
    pub transport: Transport,
    pub default_port: u16,
    pub kind: ProtocolKind,
    pub supported_commands: Seq<Seq<char>>,
}

impl View for ProtocolDefinition {
    type V = ProtocolDefinitionModel;

    open spec fn view(&self) -> ProtocolDefinitionModel {
        ProtocolDefinitionModel {
            name: self.name@,
            transport: self.transport,
            default_port: self.default_port,
            kind: self.kind,
            supported_commands: self.supported_commands@.map_values(|s: String| s@),
        }
    }
}

/// Protocol definitions by name; a later registration of a name replaces an
/// earlier one.
pub struct ProtocolRegistry {
    definitions: Vec<ProtocolDefinition>,
}

/// The definitions by name, later ones replacing earlier ones.
pub open spec fn definitions_by_name(defs: Seq<ProtocolDefinition>) -> Map<
    Seq<char>,
    ProtocolDefinitionModel,
>
    decreases defs.len(),
{
    if defs.len() == 0 {
        Map::empty()
    } else {
        definitions_by_name(defs.drop_last()).insert(defs.last().name@, defs.last()@)
    }
}

impl View for ProtocolRegistry {
    type V = Map<Seq<char>, ProtocolDefinitionModel>;

    closed spec fn view(&self) -> Map<Seq<char>, ProtocolDefinitionModel> {
        definitions_by_name(self.definitions@)
    }
}

impl ProtocolRegistry {
    pub fn new() -> (r: ProtocolRegistry)
        ensures
            r@ == Map::<Seq<char>, ProtocolDefinitionModel>::empty(),
    {
        ProtocolRegistry { definitions: Vec::new() }
    }

    /// Registers a protocol, replacing any earlier one of the same name.
    pub fn register(&mut self, definition: ProtocolDefinition)
        ensures
            final(self)@ == old(self)@.insert(definition.name@, definition@),
    {
        let ghost before = self.definitions@;
        self.definitions.push(definition);
        assert(self.definitions@.drop_last() =~= before);
    }

    /// The definition registered under the name.
    pub fn get(&self, name: &str) -> (r: Option<&ProtocolDefinition>)
        ensures
            match r {
                Some(d) => self@.contains_key(name@) && self@[name@] == d@,
                None => !self@.contains_key(name@),
            },
    {
        let key = chars_of(name);
        let mut n: usize = self.definitions.len();
        assert(self.definitions@.take(n as int) =~= self.definitions@);
        while n > 0
            invariant
                n <= self.definitions.len(),
                key@ == name@,
                definitions_by_name(self.definitions@).contains_key(name@)
                    == definitions_by_name(self.definitions@.take(n as int)).contains_key(name@),
                definitions_by_name(self.definitions@).contains_key(name@) ==> definitions_by_name(
                    self.definitions@,
                )[name@] == definitions_by_name(self.definitions@.take(n as int))[name@],
            decreases n,
        {
            let d = &self.definitions[n - 1];
            let dn = chars_of(d.name.as_str());
            let ghost pre = self.definitions@.take(n as int);
            assert(pre.drop_last() =~= self.definitions@.take(n as int - 1));
            if chars_eq(&dn, &key) {
                return Some(d);
            }
            n = n - 1;
        }
        assert(definitions_by_name(self.definitions@.take(0)) =~= Map::empty());
        None
    }
}

/// Owned names of command types.
pub fn command_names(names: &Vec<&'static str>) -> (r: Vec<String>)
    ensures
        r@.len() == names@.len(),
        forall|i: int| 0 <= i < r@.len() ==> r@[i]@ == names@[i]@,
{
    let mut r: Vec<String> = Vec::new();
    let mut i: usize = 0;
    while i < names.len()
        invariant
            i <= names.len(),
            r@.len() == i,
            forall|j: int| 0 <= j < i ==> r@[j]@ == names@[j]@,
        decreases names.len() - i,
    {
        r.push(string_from_str(names[i]));
        i = i + 1;
    }
    r
}

} // verus!

verus! {

/// A lookup finds what was last registered under its name; registering
/// leaves every other name as it was.
pub proof fn lemma_register_then_get(
    before: Map<Seq<char>, ProtocolDefinitionModel>,
    definition: ProtocolDefinitionModel,
    other: Seq<char>,
)
    ensures
        before.insert(definition.name, definition).contains_key(definition.name),
        before.insert(definition.name, definition)[definition.name] == definition,
        other != definition.name ==> before.insert(definition.name, definition).contains_key(other)
            == before.contains_key(other),
        other != definition.name && before.contains_key(other) ==> before.insert(
            definition.name,
            definition,
        )[other] == before[other],
{
}

} // verus!
