//! The external call surface. `FFIProtocol` is the capability a
//! language backend implements: load a module, call a function. The
//! evaluator reaches backends only through `FFIBackend`, which routes a
//! dotted module path by its language prefix, keeps module loading
//! idempotent, and remembers which module exports each function name.

use vstd::prelude::*;

use crate::lexical::{bytes_eq, copy_range, find_byte, find_byte_at};
use crate::syntax::{clone_bytes, clone_names, view_names, view_values, SpecValue, Value};

verus! {

broadcast use {
    crate::syntax::lemma_view_names_len,
    crate::syntax::lemma_view_names_index,
    crate::syntax::lemma_view_names_push,
};

/// Mathematical model of an external call failure.
pub enum SpecFFIError {
    ModuleNotFound(Seq<u8>),
    ProtocolNotImplemented(Seq<u8>),
    FunctionNotFound(Seq<u8>),
    AmbiguousFunction(Seq<u8>),
    LoadError(Seq<u8>),
    CallError(Seq<u8>),
}

/// A failure of the external call surface.
#[derive(Debug)]
pub enum FFIError {
    ModuleNotFound(Vec<u8>),
    ProtocolNotImplemented(Vec<u8>),
    FunctionNotFound(Vec<u8>),
    AmbiguousFunction(Vec<u8>),
    LoadError(Vec<u8>),
    CallError(Vec<u8>),
}

impl View for FFIError {
    type V = SpecFFIError;

    open spec fn view(&self) -> SpecFFIError {
        match self {
            FFIError::ModuleNotFound(s) => SpecFFIError::ModuleNotFound(s.view()),
            FFIError::ProtocolNotImplemented(s) => SpecFFIError::ProtocolNotImplemented(s.view()),
            FFIError::FunctionNotFound(s) => SpecFFIError::FunctionNotFound(s.view()),
            FFIError::AmbiguousFunction(s) => SpecFFIError::AmbiguousFunction(s.view()),
            FFIError::LoadError(s) => SpecFFIError::LoadError(s.view()),
            FFIError::CallError(s) => SpecFFIError::CallError(s.view()),
        }
    }
}

/// A language backend. Loading resolves a module and reports the names
/// it exports; calling executes a function on argument values. Each
/// implementation describes its own behaviour through the three
/// specification functions: its result is a function of its abstract
/// state and the arguments, and loading steps the state.
pub trait FFIProtocol: Sized {
    /// What loading a module from the current state reports. The
    /// default describes nothing useful; a backend that wants verified
    /// callers to know its behaviour overrides it.
    open spec fn load_result(&self, module_name: Seq<u8>) -> Result<Seq<Seq<u8>>, SpecFFIError> {
        Result::Err(SpecFFIError::LoadError(Seq::empty()))
    }

    /// The state after loading a module.
    open spec fn load_next(&self, module_name: Seq<u8>) -> Self {
        *self
    }

    /// What calling a qualified function on given arguments returns.
    open spec fn call_result(&self, func_path: Seq<u8>, args: Seq<SpecValue>) -> Result<
        SpecValue,
        SpecFFIError,
    > {
        Result::Err(SpecFFIError::CallError(Seq::empty()))
    }

    /// Loads a module and returns the names it exports.
    fn load_module(&mut self, module_name: &[u8]) -> (r: Result<Vec<Vec<u8>>, FFIError>)
        ensures
            *final(self) == old(self).load_next(module_name@),
            match (r, old(self).load_result(module_name@)) {
                (Result::Ok(v), Result::Ok(sv)) => view_names(v@) == sv,
                (Result::Err(e), Result::Err(se)) => e@ == se,
                _ => false,
            },
    ;

    /// Calls a qualified function on argument values.
    fn call_function(&self, func_path: &[u8], args: Vec<Value>) -> (r: Result<Value, FFIError>)
        ensures
            match (r, self.call_result(func_path@, view_values(args@))) {
                (Result::Ok(v), Result::Ok(sv)) => v@ == sv,
                (Result::Err(e), Result::Err(se)) => e@ == se,
                _ => false,
            },
    ;
}

/// Mathematical model of the routing backend's state.
pub struct SpecBackend<P> {
    pub language: Seq<u8>,
    pub protocol: P,
    pub loaded: Map<Seq<u8>, Seq<Seq<u8>>>,
    pub functions: Map<Seq<u8>, Seq<u8>>,
}

/// Splits a dotted module path into its language prefix and the rest.
pub open spec fn spec_split_language(path: Seq<u8>) -> (Seq<u8>, Seq<u8>) {
    match find_byte(path, 0, '.' as u8) {
        Option::Some(i) => (path.subrange(0, i), path.subrange(i + 1, path.len() as int)),
        Option::None => (path, Seq::empty()),
    }
}

/// The qualified name `module.function`.
pub open spec fn spec_qualified(module: Seq<u8>, func: Seq<u8>) -> Seq<u8> {
    module + seq![('.' as u8)] + func
}

/// Records that a module exports each of the given function names.
pub open spec fn spec_record_functions(
    m: Map<Seq<u8>, Seq<u8>>,
    fns: Seq<Seq<u8>>,
    module: Seq<u8>,
) -> Map<Seq<u8>, Seq<u8>>
    decreases fns.len(),
{
    if fns.len() == 0 {
        m
    } else {
        spec_record_functions(m.insert(fns[0], module), fns.drop_first(), module)
    }
}

/// What loading a module does to the backend: reject an unknown
/// language prefix; answer an already-loaded module from the record
/// without touching the language backend again; otherwise delegate and
/// remember the exported names.
pub open spec fn spec_backend_load<P: FFIProtocol>(b: SpecBackend<P>, path: Seq<u8>) -> (
    Result<Seq<Seq<u8>>, SpecFFIError>,
    SpecBackend<P>,
) {
    let lang_module = spec_split_language(path);
    let lang = lang_module.0;
    let module = lang_module.1;
    if lang != b.language {
        (Result::Err(SpecFFIError::ProtocolNotImplemented(lang)), b)
    } else if b.loaded.dom().contains(module) {
        (Result::Ok(b.loaded[module]), b)
    } else {
        match b.protocol.load_result(module) {
            Result::Ok(fns) => (
                Result::Ok(fns),
                SpecBackend {
                    language: b.language,
                    protocol: b.protocol.load_next(module),
                    loaded: b.loaded.insert(module, fns),
                    functions: spec_record_functions(b.functions, fns, module),
                },
            ),
            Result::Err(e) => (
                Result::Err(e),
                SpecBackend {
                    language: b.language,
                    protocol: b.protocol.load_next(module),
                    loaded: b.loaded,
                    functions: b.functions,
                },
            ),
        }
    }
}

/// What calling a function does: look up which module exported it and
/// delegate under the qualified name; an unknown name fails.
pub open spec fn spec_backend_call<P: FFIProtocol>(
    b: SpecBackend<P>,
    func: Seq<u8>,
    args: Seq<SpecValue>,
) -> Result<SpecValue, SpecFFIError> {
    if b.functions.dom().contains(func) {
        b.protocol.call_result(spec_qualified(b.functions[func], func), args)
    } else {
        Result::Err(SpecFFIError::FunctionNotFound(func))
    }
}

/// Model of the loaded-modules record.
pub open spec fn view_loaded(es: Seq<(Vec<u8>, Vec<Vec<u8>>)>) -> Map<Seq<u8>, Seq<Seq<u8>>>
    decreases es,
{
    if es.len() == 0 {
        Map::empty()
    } else {
        view_loaded(es.drop_last()).insert(es.last().0@, view_names(es.last().1@))
    }
}

/// Model of the function-to-module record.
pub open spec fn view_functions(es: Seq<(Vec<u8>, Vec<u8>)>) -> Map<Seq<u8>, Seq<u8>>
    decreases es,
{
    if es.len() == 0 {
        Map::empty()
    } else {
        view_functions(es.drop_last()).insert(es.last().0@, es.last().1@)
    }
}

/// Routes external calls to one language backend: module paths carry a
/// language prefix, loading is idempotent per module, and each exported
/// function name is remembered with its module.
pub struct FFIBackend<P: FFIProtocol> {
    pub language: Vec<u8>,
    pub protocol: P,
    pub loaded: Vec<(Vec<u8>, Vec<Vec<u8>>)>,
    pub functions: Vec<(Vec<u8>, Vec<u8>)>,
}

impl<P: FFIProtocol> View for FFIBackend<P> {
    type V = SpecBackend<P>;

    open spec fn view(&self) -> SpecBackend<P> {
        SpecBackend {
            language: self.language@,
            protocol: self.protocol,
            loaded: view_loaded(self.loaded@),
            functions: view_functions(self.functions@),
        }
    }
}

impl<P: FFIProtocol> FFIBackend<P> {
    /// A backend for one language with nothing loaded yet.
    pub fn new(language: Vec<u8>, protocol: P) -> (r: FFIBackend<P>)
        ensures
            r@.language == language@,
            r@.protocol == protocol,
            r@.loaded == Map::<Seq<u8>, Seq<Seq<u8>>>::empty(),
            r@.functions == Map::<Seq<u8>, Seq<u8>>::empty(),
    {
        FFIBackend { language, protocol, loaded: Vec::new(), functions: Vec::new() }
    }

    /// Looks up the cached export list of a module.
    fn find_loaded(&self, module: &[u8]) -> (r: Option<&Vec<Vec<u8>>>)
        ensures
            match r {
                Option::Some(v) => self@.loaded.dom().contains(module@) && view_names(v@)
                    == self@.loaded[module@],
                Option::None => !self@.loaded.dom().contains(module@),
            },
    {
        let ghost full = self.loaded@;
        assert(full.subrange(0, full.len() as int) =~= full);
        let mut i: usize = self.loaded.len();
        while i > 0
            invariant
                0 <= i <= full.len(),
                full == self.loaded@,
                view_loaded(full).dom().contains(module@) == view_loaded(
                    full.subrange(0, i as int),
                ).dom().contains(module@),
                view_loaded(full).dom().contains(module@) ==> view_loaded(full)[module@]
                    == view_loaded(full.subrange(0, i as int))[module@],
            decreases i,
        {
            i = i - 1;
            proof {
                assert(full.subrange(0, i + 1).drop_last() =~= full.subrange(0, i as int));
                assert(full.subrange(0, i + 1).last() == full[i as int]);
            }
            if bytes_eq(self.loaded[i].0.as_slice(), module) {
                return Option::Some(&self.loaded[i].1);
            }
        }
        proof {
            assert(full.subrange(0, 0) =~= Seq::<(Vec<u8>, Vec<Vec<u8>>)>::empty());
        }
        Option::None
    }

    /// Looks up which module exported a function name.
    fn find_function(&self, func: &[u8]) -> (r: Option<&Vec<u8>>)
        ensures
            match r {
                Option::Some(m) => self@.functions.dom().contains(func@) && m@
                    == self@.functions[func@],
                Option::None => !self@.functions.dom().contains(func@),
            },
    {
        let ghost full = self.functions@;
        assert(full.subrange(0, full.len() as int) =~= full);
        let mut i: usize = self.functions.len();
        while i > 0
            invariant
                0 <= i <= full.len(),
                full == self.functions@,
                view_functions(full).dom().contains(func@) == view_functions(
                    full.subrange(0, i as int),
                ).dom().contains(func@),
                view_functions(full).dom().contains(func@) ==> view_functions(full)[func@]
                    == view_functions(full.subrange(0, i as int))[func@],
            decreases i,
        {
            i = i - 1;
            proof {
                assert(full.subrange(0, i + 1).drop_last() =~= full.subrange(0, i as int));
                assert(full.subrange(0, i + 1).last() == full[i as int]);
            }
            if bytes_eq(self.functions[i].0.as_slice(), func) {
                return Option::Some(&self.functions[i].1);
            }
        }
        proof {
            assert(full.subrange(0, 0) =~= Seq::<(Vec<u8>, Vec<u8>)>::empty());
        }
        Option::None
    }

    /// Loads a module through its language backend, idempotently, and
    /// returns the names it exports.
    #[verifier::loop_isolation(false)]
    pub fn load_module(&mut self, module_name: &[u8]) -> (r: Result<Vec<Vec<u8>>, FFIError>)
        ensures
            ({
                let sr = spec_backend_load(old(self)@, module_name@);
                &&& final(self)@ == sr.1
                &&& match (r, sr.0) {
                    (Result::Ok(v), Result::Ok(sv)) => view_names(v@) == sv,
                    (Result::Err(e), Result::Err(se)) => e@ == se,
                    _ => false,
                }
            }),
    {
        let ghost b0 = self@;
        let n = module_name.len();
        let (lang, module): (Vec<u8>, Vec<u8>) = match find_byte_at(module_name, 0, '.' as u8) {
            Option::Some(i) => (
                copy_range(module_name, 0, i),
                copy_range(module_name, i + 1, n),
            ),
            Option::None => {
                let whole = copy_range(module_name, 0, n);
                let rest: Vec<u8> = Vec::new();
                proof {
                    assert(whole@ =~= module_name@);
                    assert(rest@ =~= Seq::<u8>::empty());
                }
                (whole, rest)
            },
        };
        let ghost lang_v = lang@;
        let ghost module_v = module@;
        if !bytes_eq(lang.as_slice(), self.language.as_slice()) {
            return Result::Err(FFIError::ProtocolNotImplemented(lang));
        }
        match self.find_loaded(module.as_slice()) {
            Option::Some(names) => {
                return Result::Ok(clone_names(names));
            },
            Option::None => {},
        }
        let lr = self.protocol.load_module(module.as_slice());
        match lr {
            Result::Ok(names) => {
                let ghost orig_functions = view_functions(self.functions@);
                let ghost names_v = view_names(names@);
                proof {
                    assert(names_v.subrange(0, names_v.len() as int) =~= names_v);
                }
                let mut i: usize = 0;
                while i < names.len()
                    invariant
                        0 <= i <= names@.len(),
                        self.language@ == b0.language,
                        self.protocol == b0.protocol.load_next(module_v),
                        view_loaded(self.loaded@) == b0.loaded,
                        spec_record_functions(
                            view_functions(self.functions@),
                            names_v.subrange(i as int, names_v.len() as int),
                            module@,
                        ) == spec_record_functions(orig_functions, names_v, module@),
                    decreases names@.len() - i,
                {
                    let ghost prev = self.functions@;
                    let entry_name = clone_bytes(&names[i]);
                    let entry_module = clone_bytes(&module);
                    self.functions.push((entry_name, entry_module));
                    proof {
                        assert(self.functions@.drop_last() =~= prev);
                        let tail = names_v.subrange(i as int, names_v.len() as int);
                        assert(tail[0] == names_v[i as int]);
                        assert(tail.drop_first() =~= names_v.subrange(
                            i + 1,
                            names_v.len() as int,
                        ));
                    }
                    i += 1;
                }
                proof {
                    assert(names_v.subrange(names_v.len() as int, names_v.len() as int)
                        =~= Seq::<Seq<u8>>::empty());
                    assert(names_v.subrange(0, names_v.len() as int) =~= names_v);
                }
                let ghost prev_loaded = self.loaded@;
                let cached = clone_names(&names);
                self.loaded.push((module, cached));
                proof {
                    assert(self.loaded@.drop_last() =~= prev_loaded);
                }
                Result::Ok(names)
            },
            Result::Err(e) => Result::Err(e),
        }
    }

    /// Calls an exported function by name, delegating to the language
    /// backend under the qualified `module.function` name.
    pub fn call_function(&self, function: &[u8], args: Vec<Value>) -> (r: Result<Value, FFIError>)
        ensures
            match (r, spec_backend_call(self@, function@, view_values(args@))) {
                (Result::Ok(v), Result::Ok(sv)) => v@ == sv,
                (Result::Err(e), Result::Err(se)) => e@ == se,
                _ => false,
            },
    {
        let module = match self.find_function(function) {
            Option::Some(m) => m,
            Option::None => {
                let mut copy: Vec<u8> = Vec::new();
                let mut k: usize = 0;
                while k < function.len()
                    invariant
                        0 <= k <= function@.len(),
                        copy@ =~= function@.subrange(0, k as int),
                    decreases function@.len() - k,
                {
                    copy.push(function[k]);
                    assert(copy@ =~= function@.subrange(0, k + 1));
                    k += 1;
                }
                assert(copy@ =~= function@);
                return Result::Err(FFIError::FunctionNotFound(copy));
            },
        };
        let mut qualified = clone_bytes(module);
        qualified.push('.' as u8);
        let mut k: usize = 0;
        while k < function.len()
            invariant
                0 <= k <= function@.len(),
                qualified@ =~= module@ + seq![('.' as u8)] + function@.subrange(0, k as int),
            decreases function@.len() - k,
        {
            qualified.push(function[k]);
            assert(qualified@ =~= module@ + seq![('.' as u8)] + function@.subrange(0, k + 1));
            k += 1;
        }
        assert(qualified@ =~= spec_qualified(module@, function@));
        self.protocol.call_function(qualified.as_slice(), args)
    }
}

} // verus!
