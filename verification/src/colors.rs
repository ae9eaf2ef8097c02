//! The colours the game logic attaches to objects and messages.
use vstd::prelude::*;

verus! {

/// An RGB colour.
#[derive(Clone, Copy, Debug, PartialEq, Eq, Structural)]
pub struct Color {
    pub r: u8,
    pub g: u8,
    pub b: u8,
}

pub open spec fn spec_white() -> Color {
    Color { r: 255, g: 255, b: 255 }
}

#[verifier::when_used_as_spec(spec_white)]
pub fn white() -> (c: Color)
    ensures
        c == spec_white(),
{
    Color { r: 255, g: 255, b: 255 }
}

pub open spec fn spec_red() -> Color {
    Color { r: 255, g: 0, b: 0 }
}

#[verifier::when_used_as_spec(spec_red)]
pub fn red() -> (c: Color)
    ensures
        c == spec_red(),
{
    Color { r: 255, g: 0, b: 0 }
}

pub open spec fn spec_orange() -> Color {
    Color { r: 255, g: 127, b: 0 }
}

#[verifier::when_used_as_spec(spec_orange)]
pub fn orange() -> (c: Color)
    ensures
        c == spec_orange(),
{
    Color { r: 255, g: 127, b: 0 }
}

pub open spec fn spec_yellow() -> Color {
    Color { r: 255, g: 255, b: 0 }
}

#[verifier::when_used_as_spec(spec_yellow)]
pub fn yellow() -> (c: Color)
    ensures
        c == spec_yellow(),
{
    Color { r: 255, g: 255, b: 0 }
}

pub open spec fn spec_green() -> Color {
    Color { r: 0, g: 255, b: 0 }
}

#[verifier::when_used_as_spec(spec_green)]
pub fn green() -> (c: Color)
    ensures
        c == spec_green(),
{
    Color { r: 0, g: 255, b: 0 }
}

pub open spec fn spec_sky() -> Color {
    Color { r: 0, g: 191, b: 255 }
}

#[verifier::when_used_as_spec(spec_sky)]
pub fn sky() -> (c: Color)
    ensures
        c == spec_sky(),
{
    Color { r: 0, g: 191, b: 255 }
}

pub open spec fn spec_violet() -> Color {
    Color { r: 127, g: 0, b: 255 }
}

#[verifier::when_used_as_spec(spec_violet)]
pub fn violet() -> (c: Color)
    ensures
        c == spec_violet(),
{
    Color { r: 127, g: 0, b: 255 }
}

pub open spec fn spec_light_yellow() -> Color {
    Color { r: 255, g: 255, b: 63 }
}

#[verifier::when_used_as_spec(spec_light_yellow)]
pub fn light_yellow() -> (c: Color)
    ensures
        c == spec_light_yellow(),
{
    Color { r: 255, g: 255, b: 63 }
}

pub open spec fn spec_light_green() -> Color {
    Color { r: 63, g: 255, b: 63 }
}

#[verifier::when_used_as_spec(spec_light_green)]
pub fn light_green() -> (c: Color)
    ensures
        c == spec_light_green(),
{
    Color { r: 63, g: 255, b: 63 }
}

pub open spec fn spec_light_cyan() -> Color {
    Color { r: 63, g: 255, b: 255 }
}

#[verifier::when_used_as_spec(spec_light_cyan)]
pub fn light_cyan() -> (c: Color)
    ensures
        c == spec_light_cyan(),
{
    Color { r: 63, g: 255, b: 255 }
}

pub open spec fn spec_light_azure() -> Color {
    Color { r: 63, g: 159, b: 255 }
}

#[verifier::when_used_as_spec(spec_light_azure)]
pub fn light_azure() -> (c: Color)
    ensures
        c == spec_light_azure(),
{
    Color { r: 63, g: 159, b: 255 }
}

pub open spec fn spec_light_blue() -> Color {
    Color { r: 63, g: 63, b: 255 }
}

#[verifier::when_used_as_spec(spec_light_blue)]
pub fn light_blue() -> (c: Color)
    ensures
        c == spec_light_blue(),
{
    Color { r: 63, g: 63, b: 255 }
}

pub open spec fn spec_light_violet() -> Color {
    Color { r: 159, g: 63, b: 255 }
}

#[verifier::when_used_as_spec(spec_light_violet)]
pub fn light_violet() -> (c: Color)
    ensures
        c == spec_light_violet(),
{
    Color { r: 159, g: 63, b: 255 }
}

pub open spec fn spec_dark_red() -> Color {
    Color { r: 191, g: 0, b: 0 }
}

#[verifier::when_used_as_spec(spec_dark_red)]
pub fn dark_red() -> (c: Color)
    ensures
        c == spec_dark_red(),
{
    Color { r: 191, g: 0, b: 0 }
}

pub open spec fn spec_dark_orange() -> Color {
    Color { r: 191, g: 95, b: 0 }
}

#[verifier::when_used_as_spec(spec_dark_orange)]
pub fn dark_orange() -> (c: Color)
    ensures
        c == spec_dark_orange(),
{
    Color { r: 191, g: 95, b: 0 }
}

pub open spec fn spec_dark_blue() -> Color {
    Color { r: 0, g: 0, b: 191 }
}

#[verifier::when_used_as_spec(spec_dark_blue)]
pub fn dark_blue() -> (c: Color)
    ensures
        c == spec_dark_blue(),
{
    Color { r: 0, g: 0, b: 191 }
}

pub open spec fn spec_darker_orange() -> Color {
    Color { r: 127, g: 63, b: 0 }
}

#[verifier::when_used_as_spec(spec_darker_orange)]
pub fn darker_orange() -> (c: Color)
    ensures
        c == spec_darker_orange(),
{
    Color { r: 127, g: 63, b: 0 }
}

pub open spec fn spec_darker_green() -> Color {
    Color { r: 0, g: 127, b: 0 }
}

#[verifier::when_used_as_spec(spec_darker_green)]
pub fn darker_green() -> (c: Color)
    ensures
        c == spec_darker_green(),
{
    Color { r: 0, g: 127, b: 0 }
}

pub open spec fn spec_desaturated_green() -> Color {
    Color { r: 63, g: 127, b: 63 }
}

#[verifier::when_used_as_spec(spec_desaturated_green)]
pub fn desaturated_green() -> (c: Color)
    ensures
        c == spec_desaturated_green(),
{
    Color { r: 63, g: 127, b: 63 }
}


} // verus!
