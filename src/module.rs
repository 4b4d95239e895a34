use vstd::prelude::*;

verus! {

/// The namespace reserved for the toolchain's `abort` import.
pub open spec fn reserved_namespace() -> Seq<char> {
    "env"@
}

/// `n` is the name of a module that one of `imports` comes from, other than
/// the reserved namespace.
pub open spec fn is_user_namespace(imports: Seq<String>, n: Seq<char>) -> bool {
    n != reserved_namespace() && exists|i: int| 0 <= i < imports.len() && imports[i]@ == n
}

/// The distinct user namespaces among the modules of `imports`.
pub open spec fn user_namespaces(imports: Seq<String>) -> Set<Seq<char>> {
    Set::new(|n: Seq<char>| is_user_namespace(imports, n))
}

/// Why a module was refused.
#[derive(Debug, PartialEq, Eq)]
pub enum ValidationError {
    /// The engine could not parse or compile the bytes.
    Parse(String),
    /// The module imports from `count` user namespaces, where exactly one is required.
    NamespaceCount { count: usize },
}

/// Picks the single user namespace out of the module names of a module's imports.
pub fn user_namespace(imports: &Vec<String>) -> (r: Result<String, ValidationError>)
    ensures
        user_namespaces(imports@).finite(),
        match r {
            Ok(n) => user_namespaces(imports@) == set![n@],
            Err(ValidationError::NamespaceCount { count }) => {
                count == user_namespaces(imports@).len() && count != 1
            },
            Err(_) => false,
        },
{
    let env = String::from_str("env");
    let mut found: Vec<String> = Vec::new();
    let mut i: usize = 0;
    while i < imports.len()
        invariant
            0 <= i <= imports.len(),
            env@ == reserved_namespace(),
            forall|m: int, l: int| 0 <= m < l < found.len() ==> found@[m]@ != found@[l]@,
            forall|j: int|
                0 <= j < found.len() ==> is_user_namespace(imports@.subrange(0, i as int), #[trigger] found@[j]@),
            forall|k: int|
                0 <= k < i && imports@[k]@ != reserved_namespace() ==> exists|j: int|
                    0 <= j < found.len() && found@[j]@ == #[trigger] imports@[k]@,
        decreases imports.len() - i,
    {
        let ghost before = found@;
        let name = &imports[i];
        if !(*name == env) {
            let mut seen = false;
            let mut j: usize = 0;
            while j < found.len()
                invariant
                    0 <= j <= found.len(),
                    seen <==> exists|m: int| 0 <= m < j && found@[m]@ == name@,
                decreases found.len() - j,
            {
                if found[j] == *name {
                    seen = true;
                }
                j = j + 1;
            }
            if !seen {
                found.push(name.clone());
                assert(found@[found.len() - 1]@ == imports@[i as int]@);
            }
        }
        proof {
            let pre = imports@.subrange(0, i as int);
            let post = imports@.subrange(0, i + 1);
            assert(forall|j: int| 0 <= j < before.len() ==> found@[j] == before[j]);
            assert forall|j: int| 0 <= j < found.len() implies is_user_namespace(post, #[trigger] found@[j]@) by {
                if j < before.len() {
                    let w = choose|w: int| 0 <= w < pre.len() && pre[w]@ == found@[j]@;
                    assert(post[w] == pre[w]);
                } else {
                    assert(post[i as int] == imports@[i as int]);
                }
            }
            assert forall|k: int| 0 <= k < i + 1 && imports@[k]@ != reserved_namespace() implies exists|j: int|
                0 <= j < found.len() && found@[j]@ == #[trigger] imports@[k]@ by {
                if k < i {
                    let j = choose|j: int| 0 <= j < before.len() && before[j]@ == imports@[k]@;
                    assert(found@[j] == before[j]);
                } else if found.len() > before.len() {
                    assert(found@[found.len() - 1]@ == imports@[k]@);
                } else {
                    let j = choose|j: int| 0 <= j < before.len() && before[j]@ == imports@[i as int]@;
                    assert(found@[j] == before[j]);
                }
            }
        }
        i = i + 1;
    }
    let ghost views = found@.map_values(|s: String| s@);
    proof {
        assert(imports@.subrange(0, imports.len() as int) == imports@);
        assert(views.no_duplicates()) by {
            assert forall|m: int, l: int| 0 <= m < views.len() && 0 <= l < views.len() && m != l implies views[m] != views[l] by {
                if m < l {
                    assert(found@[m]@ != found@[l]@);
                } else {
                    assert(found@[l]@ != found@[m]@);
                }
            }
        }
        assert(user_namespaces(imports@) =~= views.to_set()) by {
            assert forall|n: Seq<char>| user_namespaces(imports@).contains(n) implies views.to_set().contains(n) by {
                let k = choose|k: int| 0 <= k < imports.len() && imports@[k]@ == n;
                let j = choose|j: int| 0 <= j < found.len() && found@[j]@ == imports@[k]@;
                assert(views[j] == n);
            }
            assert forall|n: Seq<char>| views.to_set().contains(n) implies user_namespaces(imports@).contains(n) by {
                let j = choose|j: int| 0 <= j < views.len() && views[j] == n;
                assert(is_user_namespace(imports@, found@[j]@));
            }
        }
        views.unique_seq_to_set();
    }
    if found.len() == 1 {
        proof {
            assert(views.to_set() =~= set![found@[0]@]) by {
                assert(views[0] == found@[0]@);
            }
        }
        Ok(found[0].clone())
    } else {
        Err(ValidationError::NamespaceCount { count: found.len() })
    }
}

#[verifier::external_type_specification]
#[verifier::external_body]
pub struct ExModule(wasmtime::Module);

/// Relies on `wasmtime::Module::from_binary`, with a default engine, to parse
/// and compile a binary module; its error is kept as text.
#[verifier::external_body]
fn compile_binary(raw: &[u8]) -> (r: Result<wasmtime::Module, String>) {
    let engine = wasmtime::Engine::default();
    match wasmtime::Module::from_binary(&engine, raw) {
        Ok(m) => Ok(m),
        Err(e) => Err(format!("{:#}", e)),
    }
}

/// Relies on `wasmtime::Module::imports`: the module name of each import, in
/// declaration order.
#[verifier::external_body]
fn import_modules(m: &wasmtime::Module) -> (r: Vec<String>) {
    m.imports().map(|i| i.module().to_owned()).collect()
}

/// A compiled module together with the name of its user import namespace.
pub struct ValidModule {
    pub module: wasmtime::Module,
    pub user_module: String,
}

impl ValidModule {
    /// Compiles `raw_module` and records its single user import namespace.
    pub fn new(raw_module: &[u8]) -> (r: Result<ValidModule, ValidationError>)
        ensures
            match r {
                Ok(vm) => vm.user_module@ != reserved_namespace(),
                Err(ValidationError::NamespaceCount { count }) => count != 1,
                Err(ValidationError::Parse(_)) => true,
            },
    {
        let module = match compile_binary(raw_module) {
            Ok(m) => m,
            Err(e) => {
                return Err(ValidationError::Parse(e));
            },
        };
        let imports = import_modules(&module);
        let user_module = user_namespace(&imports)?;
        proof {
            assert(user_namespaces(imports@).contains(user_module@));
        }
        Ok(ValidModule { module, user_module })
    }
}

} // verus!
