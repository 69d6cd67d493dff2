//! The standard-library modules Python code can import, and their functions.
use vstd::prelude::*;
use crate::exception::RunError;
use crate::heap::{Heap, HeapData};
use crate::text::{hex_digits, push_hex, push_str, str_equals, str_to_string};
use crate::value::HeapId;

verus! {

/// Built-in modules that can be imported.
#[derive(Debug, Clone, Copy, PartialEq, Eq, Structural)]
pub enum StandardLib {
    Sys,
    Typing,
    Asyncio,
    Pathlib,
    Os,
    Math,
    Json,
    Re,
    Datetime,
}

/// The module an import name refers to.
pub open spec fn module_named(name: Seq<char>) -> Option<StandardLib> {
    if name == "sys"@ {
        Some(StandardLib::Sys)
    } else if name == "typing"@ {
        Some(StandardLib::Typing)
    } else if name == "asyncio"@ {
        Some(StandardLib::Asyncio)
    } else if name == "pathlib"@ {
        Some(StandardLib::Pathlib)
    } else if name == "os"@ {
        Some(StandardLib::Os)
    } else if name == "math"@ {
        Some(StandardLib::Math)
    } else if name == "json"@ {
        Some(StandardLib::Json)
    } else if name == "re"@ {
        Some(StandardLib::Re)
    } else if name == "datetime"@ {
        Some(StandardLib::Datetime)
    } else {
        None
    }
}

/// The name `import` uses for a built-in module.
pub open spec fn import_name(m: StandardLib) -> Seq<char> {
    match m {
        StandardLib::Sys => "sys"@,
        StandardLib::Typing => "typing"@,
        StandardLib::Asyncio => "asyncio"@,
        StandardLib::Pathlib => "pathlib"@,
        StandardLib::Os => "os"@,
        StandardLib::Math => "math"@,
        StandardLib::Json => "json"@,
        StandardLib::Re => "re"@,
        StandardLib::Datetime => "datetime"@,
    }
}

/// Every built-in module is found by its own import name, and a name that finds a
/// module is that module's import name.
pub proof fn law_modules_found_by_name(m: StandardLib, name: Seq<char>)
    ensures
        module_named(import_name(m)) == Some(m),
        module_named(name) == Some(m) ==> name == import_name(m),
{
    reveal_strlit("sys");
    reveal_strlit("typing");
    reveal_strlit("asyncio");
    reveal_strlit("pathlib");
    reveal_strlit("os");
    reveal_strlit("math");
    reveal_strlit("json");
    reveal_strlit("re");
    reveal_strlit("datetime");
    assert("sys"@.len() == 3 && "typing"@.len() == 6 && "asyncio"@.len() == 7 && "pathlib"@.len() == 7);
    assert("os"@.len() == 2 && "math"@.len() == 4 && "json"@.len() == 4 && "re"@.len() == 2 && "datetime"@.len() == 8);
    assert("asyncio"@[0] != "pathlib"@[0]);
    assert("math"@[0] != "json"@[0]);
    assert("os"@[0] != "re"@[0]);
    match m {
        StandardLib::Sys => {},
        StandardLib::Typing => assert("typing"@ != "sys"@),
        StandardLib::Asyncio => assert("asyncio"@ != "sys"@ && "asyncio"@ != "typing"@),
        StandardLib::Pathlib => assert("pathlib"@ != "sys"@ && "pathlib"@ != "typing"@ && "pathlib"@ != "asyncio"@),
        StandardLib::Os => assert("os"@ != "sys"@ && "os"@ != "typing"@ && "os"@ != "asyncio"@ && "os"@ != "pathlib"@),
        StandardLib::Math => assert("math"@ != "sys"@ && "math"@ != "typing"@ && "math"@ != "asyncio"@ && "math"@ != "pathlib"@ && "math"@ != "os"@),
        StandardLib::Json => assert("json"@ != "sys"@ && "json"@ != "typing"@ && "json"@ != "asyncio"@ && "json"@ != "pathlib"@
            && "json"@ != "os"@ && "json"@ != "math"@),
        StandardLib::Re => assert("re"@ != "sys"@ && "re"@ != "typing"@ && "re"@ != "asyncio"@ && "re"@ != "pathlib"@
            && "re"@ != "os"@ && "re"@ != "math"@ && "re"@ != "json"@),
        StandardLib::Datetime => assert("datetime"@ != "sys"@ && "datetime"@ != "typing"@ && "datetime"@ != "asyncio"@
            && "datetime"@ != "pathlib"@ && "datetime"@ != "os"@ && "datetime"@ != "math"@ && "datetime"@ != "json"@ && "datetime"@ != "re"@),
    }
}

impl StandardLib {
    /// The module imported by `name`, if it is one of the built-in modules.
    pub fn from_string_id(name: &str) -> (r: Option<StandardLib>)
        ensures
            r == module_named(name@),
    {
        if str_equals(name, "sys") {
            Some(StandardLib::Sys)
        } else if str_equals(name, "typing") {
            Some(StandardLib::Typing)
        } else if str_equals(name, "asyncio") {
            Some(StandardLib::Asyncio)
        } else if str_equals(name, "pathlib") {
            Some(StandardLib::Pathlib)
        } else if str_equals(name, "os") {
            Some(StandardLib::Os)
        } else if str_equals(name, "math") {
            Some(StandardLib::Math)
        } else if str_equals(name, "json") {
            Some(StandardLib::Json)
        } else if str_equals(name, "re") {
            Some(StandardLib::Re)
        } else if str_equals(name, "datetime") {
            Some(StandardLib::Datetime)
        } else {
            None
        }
    }

    /// Creates an instance of the module on the heap.
    pub fn create(self, heap: &mut Heap) -> (r: Result<HeapId, RunError>)
        requires
            old(heap).wf(),
        ensures
            final(heap).wf(),
            r matches Ok(id) ==> final(heap)@.live(id) && final(heap)@.data(id) == HeapData::Module(self),
            (r is Ok) == crate::heap::has_room(old(heap)@),
    {
        heap.allocate(HeapData::Module(self))
    }
}

/// A function of a standard-library module, by module and function name.
#[derive(Debug)]
pub enum ModuleFunctions {
    Asyncio(String),
    Json(String),
    Math(String),
    Os(String),
    Re(String),
}

/// The function's name.
pub open spec fn function_name(f: ModuleFunctions) -> Seq<char> {
    match f {
        ModuleFunctions::Asyncio(n) | ModuleFunctions::Json(n) | ModuleFunctions::Math(n) | ModuleFunctions::Os(n) | ModuleFunctions::Re(n) => n@,
    }
}

impl ModuleFunctions {
    /// `repr()` of the function: `<function {name} at 0x{id:x}>`.
    pub fn py_repr_fmt(&self, py_id: usize) -> (r: String)
        ensures
            r@ == "<function "@ + function_name(*self) + " at 0x"@ + hex_digits(py_id as nat) + ">"@,
    {
        let name = match self {
            ModuleFunctions::Asyncio(n) | ModuleFunctions::Json(n) | ModuleFunctions::Math(n) | ModuleFunctions::Os(n) | ModuleFunctions::Re(n) => n,
        };
        let mut s = str_to_string("<function ");
        push_str(&mut s, name.as_str());
        push_str(&mut s, " at 0x");
        push_hex(&mut s, py_id as u64);
        push_str(&mut s, ">");
        s
    }
}

} // verus!
