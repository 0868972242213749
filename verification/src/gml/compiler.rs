//! The GML compiler's registries: script names to indices, constant
//! names, and the table of unique field names. Scripts panic-free: a name
//! may be registered once, as GM8 itself insists.

use vstd::prelude::*;

verus! {

/// The compiler state: registries that later compilation passes resolve
/// identifiers through.
pub struct Compiler {
    /// Identifiers registered as constants, overriding built-in ones.
    pub constants: Vec<String>,
    /// Script names, each paired with the script's index.
    pub script_names: Vec<(String, usize)>,
    /// Lookup table of unique field names.
    pub fields: Vec<String>,
}

/// A name is already registered as a script.
pub open spec fn has_script(m: Seq<(String, usize)>, name: Seq<char>) -> bool {
    exists|i: int| 0 <= i < m.len() && m[i].0@ == name
}

impl Compiler {
    /// Create a compiler with empty registries.
    pub fn new() -> (r: Self)
        ensures
            r.constants@.len() == 0,
            r.script_names@.len() == 0,
            r.fields@.len() == 0,
    {
        Compiler { constants: Vec::new(), script_names: Vec::new(), fields: Vec::new() }
    }

    /// Reserve space to register at least the given number of constants.
    /// Capacity is not observable: the registries are unchanged.
    pub fn reserve_constants(&mut self, size: usize)
        ensures
            final(self).constants@ == old(self).constants@,
            final(self).script_names@ == old(self).script_names@,
            final(self).fields@ == old(self).fields@,
    {
        self.constants.reserve(size);
    }

    /// Reserve space to register at least the given number of script
    /// names. Capacity is not observable: the registries are unchanged.
    pub fn reserve_scripts(&mut self, size: usize)
        ensures
            final(self).constants@ == old(self).constants@,
            final(self).script_names@ == old(self).script_names@,
            final(self).fields@ == old(self).fields@,
    {
        self.script_names.reserve(size);
    }

    /// Register a script name and its index. Registering two identical
    /// script names is not meaningful - GM8 does not allow it - so a name
    /// may only be registered once.
    pub fn register_script(&mut self, name: String, index: usize)
        requires
            !has_script(old(self).script_names@, name@),
        ensures
            final(self).script_names@ == old(self).script_names@.push((name, index)),
            final(self).constants == old(self).constants,
            final(self).fields == old(self).fields,
    {
        self.script_names.push((name, index));
    }
}

} // verus!
