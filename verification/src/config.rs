//! Font weights of the GUI configuration.
use vstd::prelude::*;
use crate::text::str_equal;

verus! {

/// Font weights, from thinnest to heaviest.
#[derive(Debug, Clone, Copy, PartialEq, Eq)]
pub enum FontWeight {
    Thin,
    ExtraLight,
    Light,
    Normal,
    Medium,
    SemiBold,
    Bold,
    ExtraBold,
    Black,
}

impl Default for FontWeight {
    /// The normal weight.
    fn default() -> (r: FontWeight)
        ensures
            r == FontWeight::Normal,
    {
        FontWeight::Normal
    }
}

/// The numeric weight of each font weight (100 for thin to 900 for black).
pub open spec fn weight_value_spec(w: FontWeight) -> u16 {
    match w {
        FontWeight::Thin => 100,
        FontWeight::ExtraLight => 200,
        FontWeight::Light => 300,
        FontWeight::Normal => 400,
        FontWeight::Medium => 500,
        FontWeight::SemiBold => 600,
        FontWeight::Bold => 700,
        FontWeight::ExtraBold => 800,
        FontWeight::Black => 900,
    }
}

/// The name of each weight as configuration files write it.
pub open spec fn weight_name_spec(w: FontWeight) -> Seq<char> {
    match w {
        FontWeight::Thin => "thin"@,
        FontWeight::ExtraLight => "extralight"@,
        FontWeight::Light => "light"@,
        FontWeight::Normal => "normal"@,
        FontWeight::Medium => "medium"@,
        FontWeight::SemiBold => "semibold"@,
        FontWeight::Bold => "bold"@,
        FontWeight::ExtraBold => "extrabold"@,
        FontWeight::Black => "black"@,
    }
}

impl FontWeight {
    /// The numeric weight that the renderer takes.
    pub fn weight_value(self) -> (r: u16)
        ensures
            r == weight_value_spec(self),
    {
        match self {
            FontWeight::Thin => 100,
            FontWeight::ExtraLight => 200,
            FontWeight::Light => 300,
            FontWeight::Normal => 400,
            FontWeight::Medium => 500,
            FontWeight::SemiBold => 600,
            FontWeight::Bold => 700,
            FontWeight::ExtraBold => 800,
            FontWeight::Black => 900,
        }
    }

    /// The name configuration files use for the weight.
    pub fn name(self) -> (r: &'static str)
        ensures
            r@ == weight_name_spec(self),
    {
        match self {
            FontWeight::Thin => "thin",
            FontWeight::ExtraLight => "extralight",
            FontWeight::Light => "light",
            FontWeight::Normal => "normal",
            FontWeight::Medium => "medium",
            FontWeight::SemiBold => "semibold",
            FontWeight::Bold => "bold",
            FontWeight::ExtraBold => "extrabold",
            FontWeight::Black => "black",
        }
    }
}

/// The weight a configuration name stands for, if any.
pub open spec fn weight_named(name: Seq<char>) -> Option<FontWeight> {
    if name == weight_name_spec(FontWeight::Thin) {
        Some(FontWeight::Thin)
    } else if name == weight_name_spec(FontWeight::ExtraLight) {
        Some(FontWeight::ExtraLight)
    } else if name == weight_name_spec(FontWeight::Light) {
        Some(FontWeight::Light)
    } else if name == weight_name_spec(FontWeight::Normal) {
        Some(FontWeight::Normal)
    } else if name == weight_name_spec(FontWeight::Medium) {
        Some(FontWeight::Medium)
    } else if name == weight_name_spec(FontWeight::SemiBold) {
        Some(FontWeight::SemiBold)
    } else if name == weight_name_spec(FontWeight::Bold) {
        Some(FontWeight::Bold)
    } else if name == weight_name_spec(FontWeight::ExtraBold) {
        Some(FontWeight::ExtraBold)
    } else if name == weight_name_spec(FontWeight::Black) {
        Some(FontWeight::Black)
    } else {
        None
    }
}

impl FontWeight {
    /// The weight that a configuration file names, if the name is one.
    pub fn from_name(name: &str) -> (r: Option<FontWeight>)
        ensures
            r == weight_named(name@),
    {
        if str_equal(name, "thin") {
            Some(FontWeight::Thin)
        } else if str_equal(name, "extralight") {
            Some(FontWeight::ExtraLight)
        } else if str_equal(name, "light") {
            Some(FontWeight::Light)
        } else if str_equal(name, "normal") {
            Some(FontWeight::Normal)
        } else if str_equal(name, "medium") {
            Some(FontWeight::Medium)
        } else if str_equal(name, "semibold") {
            Some(FontWeight::SemiBold)
        } else if str_equal(name, "bold") {
            Some(FontWeight::Bold)
        } else if str_equal(name, "extrabold") {
            Some(FontWeight::ExtraBold)
        } else if str_equal(name, "black") {
            Some(FontWeight::Black)
        } else {
            None
        }
    }
}

/// Reading a weight's name gives the weight back.
pub proof fn lemma_weight_name_round_trip(w: FontWeight)
    ensures
        weight_named(weight_name_spec(w)) == Some(w),
{
    reveal_strlit("thin");
    reveal_strlit("extralight");
    reveal_strlit("light");
    reveal_strlit("normal");
    reveal_strlit("medium");
    reveal_strlit("semibold");
    reveal_strlit("bold");
    reveal_strlit("extrabold");
    reveal_strlit("black");
    assert("thin"@.len() == 4 && "thin"@[0] == 't');
    assert("extralight"@.len() == 10 && "extralight"@[0] == 'e');
    assert("light"@.len() == 5 && "light"@[0] == 'l');
    assert("normal"@.len() == 6 && "normal"@[0] == 'n');
    assert("medium"@.len() == 6 && "medium"@[0] == 'm');
    assert("semibold"@.len() == 8 && "semibold"@[0] == 's');
    assert("bold"@.len() == 4 && "bold"@[0] == 'b');
    assert("extrabold"@.len() == 9 && "extrabold"@[0] == 'e');
    assert("black"@.len() == 5 && "black"@[0] == 'b');
}

/// Heavier weights have larger numeric weights.
pub proof fn lemma_weight_values_increase()
    ensures
        weight_value_spec(FontWeight::Thin) < weight_value_spec(FontWeight::ExtraLight),
        weight_value_spec(FontWeight::ExtraLight) < weight_value_spec(FontWeight::Light),
        weight_value_spec(FontWeight::Light) < weight_value_spec(FontWeight::Normal),
        weight_value_spec(FontWeight::Normal) < weight_value_spec(FontWeight::Medium),
        weight_value_spec(FontWeight::Medium) < weight_value_spec(FontWeight::SemiBold),
        weight_value_spec(FontWeight::SemiBold) < weight_value_spec(FontWeight::Bold),
        weight_value_spec(FontWeight::Bold) < weight_value_spec(FontWeight::ExtraBold),
        weight_value_spec(FontWeight::ExtraBold) < weight_value_spec(FontWeight::Black),
{
}

} // verus!
