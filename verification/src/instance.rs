//! Runtime objects: globals, functions, what an instance exports and
//! imports, and the instance itself.
//!
//! Memories, tables and globals live in a [`crate::store::Store`]; an
//! instance and an export name them by their index there, so that an
//! object imported by several instances is shared among them.

use vstd::prelude::*;
use std::rc::Rc;
use crate::module::Module;
use crate::signature::{RuntimeSignature, Signature, SignatureView, ValType};
use crate::value::WasmValue;

verus! {

/// A global: its type, whether it may be written, and its value.
#[derive(Clone, Copy, Debug, PartialEq, Eq, Structural)]
pub struct WasmGlobal {
    pub ty: ValType,
    pub mutable: bool,
    pub value: WasmValue,
}

/// A function as an instance holds it.
///
/// A function of the instance's own module is known by where its body
/// starts and how many locals it declares.  A function of another
/// instance is known by that instance's id and the index there.  A host
/// function is known by the number that the embedder gave it; the
/// embedder runs it when the interpreter asks.
#[derive(Clone, Copy, Debug, PartialEq, Eq, Structural)]
pub enum RuntimeFunction {
    OwnedWasm { runtime_sig: RuntimeSignature, pc_start: usize, locals_count: usize },
    ImportedWasm { runtime_sig: RuntimeSignature, owner: u32, function_index: usize },
    Host { callback: usize, runtime_sig: RuntimeSignature },
}

impl RuntimeFunction {
    /// The packed signature.
    pub open spec fn spec_signature(&self) -> RuntimeSignature {
        match self {
            RuntimeFunction::OwnedWasm { runtime_sig, .. } => *runtime_sig,
            RuntimeFunction::ImportedWasm { runtime_sig, .. } => *runtime_sig,
            RuntimeFunction::Host { runtime_sig, .. } => *runtime_sig,
        }
    }

    /// The packed signature.
    #[verifier::when_used_as_spec(spec_signature)]
    pub fn signature(&self) -> (r: RuntimeSignature)
        ensures
            r == self.spec_signature(),
    {
        match self {
            RuntimeFunction::OwnedWasm { runtime_sig, .. } => *runtime_sig,
            RuntimeFunction::ImportedWasm { runtime_sig, .. } => *runtime_sig,
            RuntimeFunction::Host { runtime_sig, .. } => *runtime_sig,
        }
    }

    /// The number of parameters, modulo `65536`.
    pub open spec fn spec_param_count(&self) -> usize {
        self.spec_signature().spec_n_params() as usize
    }

    /// The number of parameters, modulo `65536`.
    #[verifier::when_used_as_spec(spec_param_count)]
    pub fn param_count(&self) -> (r: usize)
        ensures
            r == self.spec_param_count(),
    {
        self.signature().n_params() as usize
    }

    /// A host function with the given parameter and result types, known
    /// to the embedder as number `callback`.
    pub fn new_host(params: Vec<ValType>, result: Option<ValType>, callback: usize) -> (r: Self)
        ensures
            r == (RuntimeFunction::Host {
                callback,
                runtime_sig: RuntimeSignature::spec_from_signature(
                    SignatureView { params: params@, result },
                ),
            }),
    {
        RuntimeFunction::Host {
            callback,
            runtime_sig: RuntimeSignature::from_signature(&Signature { params, result }),
        }
    }
}

/// What an instance exports or imports: a function, or the index in the
/// store of a table, a memory or a global.
#[derive(Clone, Copy, Debug, PartialEq, Eq, Structural)]
pub enum ExportValue {
    Function(RuntimeFunction),
    Table(usize),
    Memory(usize),
    Global(usize),
}

/// An export of an instance, by name.
#[derive(Clone, Debug)]
pub struct ExportItem {
    pub name: String,
    pub value: ExportValue,
}

/// An item offered for import, by module name and field name.
#[derive(Clone, Debug)]
pub struct ImportItem {
    pub module: String,
    pub field: String,
    pub value: ExportValue,
}

/// The items offered for import.  Where two items have the same names,
/// the first counts.
pub type Imports = Vec<ImportItem>;

/// The first item with the given names, if any.
pub open spec fn lookup_spec(imports: Seq<ImportItem>, module: Seq<char>, field: Seq<char>, from: int) -> Option<
    ExportValue,
>
    decreases imports.len() - from,
{
    if from < 0 || from >= imports.len() {
        None
    } else if imports[from].module@ == module && imports[from].field@ == field {
        Some(imports[from].value)
    } else {
        lookup_spec(imports, module, field, from + 1)
    }
}

/// The first item with the given names, if any.
pub fn lookup(imports: &Vec<ImportItem>, module: &String, field: &String) -> (r: Option<ExportValue>)
    ensures
        r == lookup_spec(imports@, module@, field@, 0),
{
    let mut i: usize = 0;
    while i < imports.len()
        invariant
            i <= imports@.len(),
            lookup_spec(imports@, module@, field@, 0) == lookup_spec(
                imports@,
                module@,
                field@,
                i as int,
            ),
        decreases imports@.len() - i,
    {
        if imports[i].module == *module && imports[i].field == *field {
            return Some(imports[i].value);
        }
        i = i + 1;
    }
    None
}

/// An instance: a module linked against imports.
pub struct Instance {
    pub id: u32,
    pub module: Rc<Module>,
    pub memory: Option<usize>,
    pub table: Option<usize>,
    pub globals: Vec<usize>,
    pub functions: Vec<RuntimeFunction>,
    pub exports: Vec<ExportItem>,
}

impl Instance {
    /// An instance of `module` that has no id and nothing resolved yet.
    pub fn new(module: Rc<Module>) -> (inst: Self)
        ensures
            inst.id == 0,
            inst.module == module,
            inst.memory is None,
            inst.table is None,
            inst.globals@.len() == 0,
            inst.functions@.len() == 0,
            inst.exports@.len() == 0,
    {
        Instance {
            id: 0,
            module,
            memory: None,
            table: None,
            globals: Vec::new(),
            functions: Vec::new(),
            exports: Vec::new(),
        }
    }

    /// The export of the given name, if any; the first where several
    /// have it.
    pub open spec fn spec_export(&self, name: Seq<char>, from: int) -> Option<ExportValue>
        decreases self.exports@.len() - from,
    {
        if from < 0 || from >= self.exports@.len() {
            None
        } else if self.exports@[from].name@ == name {
            Some(self.exports@[from].value)
        } else {
            self.spec_export(name, from + 1)
        }
    }

    /// The export of the given name, if any.
    pub fn export(&self, name: &str) -> (r: Option<ExportValue>)
        ensures
            r == self.spec_export(name@, 0),
    {
        let wanted: String = name.to_owned();
        let mut i: usize = 0;
        while i < self.exports.len()
            invariant
                i <= self.exports@.len(),
                wanted@ == name@,
                self.spec_export(name@, 0) == self.spec_export(name@, i as int),
            decreases self.exports@.len() - i,
        {
            if self.exports[i].name == wanted {
                return Some(self.exports[i].value);
            }
            i = i + 1;
        }
        None
    }

    /// The bytes of the instance's module.
    pub fn code(&self) -> (b: &[u8])
        ensures
            b@ == self.module.bytes@,
    {
        self.module.bytes.as_slice()
    }
}

} // verus!
