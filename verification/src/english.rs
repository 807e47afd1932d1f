//! The English generators.
use vstd::prelude::*;

use crate::generator::{
    LanguageGenerator, LanguageGeneratorBase, LanguageGeneratorGeneric, NoPersonGenerator,
};

verus! {

/// The English generator for any item.
pub struct GeneratorGenericEn {}

impl LanguageGeneratorBase for GeneratorGenericEn {
    fn new() -> Self {
        GeneratorGenericEn {  }
    }
}

impl LanguageGeneratorGeneric for GeneratorGenericEn {
}

/// The English generator; it has no part for people of its own.
pub struct GeneratorEn {}

impl LanguageGenerator for GeneratorEn {
    type Generic = GeneratorGenericEn;

    type Person = NoPersonGenerator;

    fn new() -> Self {
        GeneratorEn {  }
    }

    fn get_generic(&self) -> GeneratorGenericEn {
        <GeneratorGenericEn as LanguageGeneratorBase>::new()
    }

    fn get_person(&self) -> (r: Option<NoPersonGenerator>)
        ensures
            r is None,
    {
        None
    }
}

} // verus!
