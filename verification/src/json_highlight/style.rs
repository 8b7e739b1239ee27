//! The colours of the parts of highlighted JSON.

use vstd::prelude::*;

use crate::styled::{Color, Style};

verus! {

/// Object keys.
#[verifier::allow_in_spec]
pub fn key() -> Style
    returns
        (Style { fg: Some(Color::Cyan) }),
{
    Style { fg: Some(Color::Cyan) }
}

/// String values.
#[verifier::allow_in_spec]
pub fn string() -> Style
    returns
        (Style { fg: Some(Color::Green) }),
{
    Style { fg: Some(Color::Green) }
}

/// Numbers.
#[verifier::allow_in_spec]
pub fn number() -> Style
    returns
        (Style { fg: Some(Color::Yellow) }),
{
    Style { fg: Some(Color::Yellow) }
}

/// `true` and `false`.
#[verifier::allow_in_spec]
pub fn boolean() -> Style
    returns
        (Style { fg: Some(Color::Magenta) }),
{
    Style { fg: Some(Color::Magenta) }
}

/// `null`.
#[verifier::allow_in_spec]
pub fn null() -> Style
    returns
        (Style { fg: Some(Color::Red) }),
{
    Style { fg: Some(Color::Red) }
}

/// Brackets and braces.
#[verifier::allow_in_spec]
pub fn bracket() -> Style
    returns
        (Style { fg: Some(Color::White) }),
{
    Style { fg: Some(Color::White) }
}

/// Commas and the colon after a key.
#[verifier::allow_in_spec]
pub fn punctuation() -> Style
    returns
        (Style { fg: Some(Color::DarkGray) }),
{
    Style { fg: Some(Color::DarkGray) }
}

} // verus!
