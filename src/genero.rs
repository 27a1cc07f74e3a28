use vstd::prelude::*;

verus! {

/// The genre of a book. Outside the catalog it travels as a code from 0 to 5.
#[derive(Clone, Copy, Debug, PartialEq, Eq, Structural)]
pub enum Genero {
    Ficcao,
    Biografia,
    Poesia,
    Infantil,
    Romance,
    Outro,
}

/// The error returned when a code names no genre.
pub const CODIGO_INVALIDO: &'static str = "Valor inválido para Genero";

/// The code of each genre.
pub open spec fn codigo_de(g: Genero) -> u8 {
    match g {
        Genero::Ficcao => 0,
        Genero::Biografia => 1,
        Genero::Poesia => 2,
        Genero::Infantil => 3,
        Genero::Romance => 4,
        Genero::Outro => 5,
    }
}

/// The genre that a code names, if any.
pub open spec fn genero_de(v: u8) -> Option<Genero> {
    if v == 0 {
        Some(Genero::Ficcao)
    } else if v == 1 {
        Some(Genero::Biografia)
    } else if v == 2 {
        Some(Genero::Poesia)
    } else if v == 3 {
        Some(Genero::Infantil)
    } else if v == 4 {
        Some(Genero::Romance)
    } else if v == 5 {
        Some(Genero::Outro)
    } else {
        None
    }
}

impl Genero {
    /// The code under which this genre travels.
    pub fn codigo(&self) -> (r: u8)
        ensures
            r == codigo_de(*self),
            r <= 5,
    {
        match self {
            Genero::Ficcao => 0,
            Genero::Biografia => 1,
            Genero::Poesia => 2,
            Genero::Infantil => 3,
            Genero::Romance => 4,
            Genero::Outro => 5,
        }
    }
}

impl TryFrom<u8> for Genero {
    type Error = &'static str;

    /// Decodes a genre code; any code above 5 is refused.
    fn try_from(value: u8) -> (r: Result<Genero, &'static str>) {
        match value {
            0 => Ok(Genero::Ficcao),
            1 => Ok(Genero::Biografia),
            2 => Ok(Genero::Poesia),
            3 => Ok(Genero::Infantil),
            4 => Ok(Genero::Romance),
            5 => Ok(Genero::Outro),
            _ => Err(CODIGO_INVALIDO),
        }
    }
}

impl vstd::std_specs::convert::TryFromSpecImpl<u8> for Genero {
    open spec fn obeys_try_from_spec() -> bool {
        true
    }

    open spec fn try_from_spec(v: u8) -> Result<Genero, &'static str> {
        match genero_de(v) {
            Some(g) => Ok(g),
            None => Err(CODIGO_INVALIDO),
        }
    }
}

/// Every genre decodes back from its own code, and the codes above 5 name none.
pub proof fn lemma_codigo_ida_e_volta(g: Genero, v: u8)
    ensures
        genero_de(codigo_de(g)) == Some(g),
        genero_de(v) is None <==> v > 5,
        genero_de(v) matches Some(h) ==> codigo_de(h) == v,
{
}

} // verus!
