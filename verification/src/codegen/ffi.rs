//! Declarations and wrappers for external C functions called from NOVA.

use vstd::prelude::*;
use crate::codegen::ir::{CodegenError, NovaType, ir_name};
use crate::text::{join, push_str};

verus! {

/// An external C function: its name, return type and parameter types.
#[derive(Debug, Clone)]
pub struct ExternFunction {
    pub name: String,
    pub return_type: NovaType,
    pub parameters: Vec<NovaType>,
}

/// The IR spellings of a list of types.
pub open spec fn ir_names(ts: Seq<NovaType>) -> Seq<Seq<char>> {
    Seq::new(ts.len(), |i: int| ir_name(ts[i]))
}

/// `declare <ret> @<name>(<params>)`.
pub open spec fn declaration_text(name: Seq<char>, ret: NovaType, params: Seq<NovaType>) -> Seq<char> {
    "declare "@ + ir_name(ret) + " @"@ + name + "("@ + join(ir_names(params), ", "@) + ")"@
}

/// A wrapper that calls the function and returns.
pub open spec fn wrapper_text(name: Seq<char>, ret: NovaType) -> Seq<char> {
    "define "@ + ir_name(ret) + " @"@ + name + "_wrapper() {\n  call "@ + ir_name(ret) + " @"@ + name + "("@
        + ")\n"@ + "  ret void\n}"@
}

impl ExternFunction {
    /// A function with no parameters yet.
    pub fn new(name: String, return_type: NovaType) -> (r: Self)
        ensures
            r.name@ == name@,
            r.return_type == return_type,
            r.parameters@.len() == 0,
    {
        ExternFunction { name, return_type, parameters: Vec::new() }
    }

    /// Appends a parameter type.
    pub fn add_parameter(&mut self, ty: NovaType)
        ensures
            final(self).parameters@ == old(self).parameters@.push(ty),
            final(self).name@ == old(self).name@,
            final(self).return_type == old(self).return_type,
    {
        self.parameters.push(ty);
    }

    /// The IR declaration, such as `declare f64 @sin(f64)`.
    pub fn emit_declaration(&self) -> (r: String)
        ensures
            r@ == declaration_text(self.name@, self.return_type, self.parameters@),
    {
        let mut s = String::new();
        push_str(&mut s, "declare ");
        let ret = self.return_type.to_string();
        push_str(&mut s, ret.as_str());
        push_str(&mut s, " @");
        push_str(&mut s, self.name.as_str());
        push_str(&mut s, "(");
        let ghost prefix = s@;
        let mut i: usize = 0;
        while i < self.parameters.len()
            invariant
                i <= self.parameters@.len(),
                s@ == prefix + join(ir_names(self.parameters@.take(i as int)), ", "@),
            decreases self.parameters@.len() - i,
        {
            if i > 0 {
                push_str(&mut s, ", ");
            }
            let p = self.parameters[i].to_string();
            push_str(&mut s, p.as_str());
            proof {
                let q = ir_names(self.parameters@.take(i as int));
                assert(ir_names(self.parameters@.take(i + 1)) =~= q.push(ir_name(self.parameters@[i as int])));
                crate::text::lemma_join_push(q, ", "@, ir_name(self.parameters@[i as int]));
            }
            i = i + 1;
        }
        assert(self.parameters@.take(self.parameters@.len() as int) =~= self.parameters@);
        push_str(&mut s, ")");
        assert(s@ =~= declaration_text(self.name@, self.return_type, self.parameters@));
        s
    }
}

/// The generator of FFI wrappers.
#[derive(Debug)]
pub struct FFICodegen;

impl FFICodegen {
    /// A generator.
    pub fn new() -> (r: Self) {
        FFICodegen
    }

    /// The IR of a wrapper that calls the external function.
    pub fn generate_wrapper(&self, extern_func: &ExternFunction) -> (r: Result<String, CodegenError>)
        ensures
            r matches Ok(s) && s@ == wrapper_text(extern_func.name@, extern_func.return_type),
    {
        let ret = extern_func.return_type.to_string();
        let mut w = String::new();
        push_str(&mut w, "define ");
        push_str(&mut w, ret.as_str());
        push_str(&mut w, " @");
        push_str(&mut w, extern_func.name.as_str());
        push_str(&mut w, "_wrapper() {\n  call ");
        push_str(&mut w, ret.as_str());
        push_str(&mut w, " @");
        push_str(&mut w, extern_func.name.as_str());
        push_str(&mut w, "(");
        push_str(&mut w, ")\n");
        push_str(&mut w, "  ret void\n}");
        assert(w@ =~= wrapper_text(extern_func.name@, extern_func.return_type));
        Ok(w)
    }
}

impl Default for FFICodegen {
    fn default() -> (r: Self)
        ensures
            r == FFICodegen,
    {
        FFICodegen::new()
    }
}

} // verus!
