//! Hover information of the language server: the type, unit or shape of a symbol.

use vstd::prelude::*;
use crate::text::{decimals, join, push_str, str_to_string};

verus! {

/// What a hover shows for a symbol.
#[derive(Debug, Clone)]
pub struct HoverContent {
    pub symbol: String,
    pub type_info: Option<String>,
    pub unit_info: Option<String>,
    pub documentation: Option<String>,
}

/// The provider of hover information.
#[derive(Debug)]
pub struct HoverProvider {}

/// The view of an optional string.
pub open spec fn opt_view(o: Option<String>) -> Option<Seq<char>> {
    match o {
        Some(s) => Some(s@),
        None => None,
    }
}

/// `Tensor[<elem>, <d1>×<d2>×...]`.
pub open spec fn tensor_hover_text(element_type: Seq<char>, shape: Seq<usize>) -> Seq<char> {
    "Tensor["@ + element_type + ", "@ + join(decimals(shape), "×"@) + "]"@
}

impl HoverProvider {
    /// A provider.
    pub fn new() -> (r: Self) {
        HoverProvider {}
    }

    /// Hover information at a source position: none is known.
    pub fn get_hover(&self, line: u32, col: u32, source: &str) -> (r: Option<HoverContent>)
        ensures
            r is None,
    {
        None
    }

    /// Hover content for a variable of a unit type.
    pub fn create_unit_hover(&self, name: &str, ty_label: &str, unit: &str) -> (r: HoverContent)
        ensures
            r.symbol@ == name@,
            opt_view(r.type_info) == Some(ty_label@),
            opt_view(r.unit_info) == Some(unit@),
            r.documentation is None,
    {
        HoverContent {
            symbol: str_to_string(name),
            type_info: Some(str_to_string(ty_label)),
            unit_info: Some(str_to_string(unit)),
            documentation: None,
        }
    }

    /// Hover content for a mission: its signature and documentation.
    pub fn create_mission_hover(&self, name: &str, signature: &str, docs: &str) -> (r: HoverContent)
        ensures
            r.symbol@ == name@,
            opt_view(r.type_info) == Some(signature@),
            r.unit_info is None,
            opt_view(r.documentation) == Some(docs@),
    {
        HoverContent {
            symbol: str_to_string(name),
            type_info: Some(str_to_string(signature)),
            unit_info: None,
            documentation: Some(str_to_string(docs)),
        }
    }

    /// Hover content for a tensor: its element type and shape, such as `Tensor[Float, 3×4]`.
    pub fn create_tensor_hover(&self, name: &str, element_type: &str, shape: &[usize]) -> (r: HoverContent)
        ensures
            r.symbol@ == name@,
            opt_view(r.type_info) == Some(tensor_hover_text(element_type@, shape@)),
            r.unit_info is None,
            r.documentation is None,
    {
        let mut s = String::new();
        push_str(&mut s, "Tensor[");
        push_str(&mut s, element_type);
        push_str(&mut s, ", ");
        crate::text::push_decimals_joined(&mut s, shape, "×");
        push_str(&mut s, "]");
        assert(s@ =~= tensor_hover_text(element_type@, shape@));
        HoverContent { symbol: str_to_string(name), type_info: Some(s), unit_info: None, documentation: None }
    }
}

impl Default for HoverProvider {
    fn default() -> (r: Self)
        ensures
            r == (HoverProvider {}),
    {
        HoverProvider::new()
    }
}

} // verus!
