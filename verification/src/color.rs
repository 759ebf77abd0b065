//! Colours: four eight-bit channels, and the named colours the renderers use.

use vstd::prelude::*;

verus! {

/// A colour with red, green, blue and alpha channels.
#[derive(Clone, Copy, Debug, PartialEq, Eq, Structural)]
pub struct Color {
    pub r: u8,
    pub g: u8,
    pub b: u8,
    pub a: u8,
}

/// The colour with the given channels.
pub open spec fn rgba(r: u8, g: u8, b: u8, a: u8) -> Color {
    Color { r, g, b, a }
}

impl Color {
    /// A colour from its four channels.
    pub fn new(r: u8, g: u8, b: u8, a: u8) -> (c: Color)
        ensures
            c == rgba(r, g, b, a),
    {
        Color { r, g, b, a }
    }
}

/// Opaque black.
pub open spec fn spec_black() -> Color {
    rgba(0, 0, 0, 255)
}

/// Opaque black.
#[verifier::when_used_as_spec(spec_black)]
pub fn black() -> (c: Color)
    ensures
        c == spec_black(),
{
    Color::new(0, 0, 0, 255)
}

/// Opaque white.
pub open spec fn spec_white() -> Color {
    rgba(255, 255, 255, 255)
}

/// Opaque white.
#[verifier::when_used_as_spec(spec_white)]
pub fn white() -> (c: Color)
    ensures
        c == spec_white(),
{
    Color::new(255, 255, 255, 255)
}

/// A very light grey.
pub open spec fn spec_whitesmoke() -> Color {
    rgba(245, 245, 245, 255)
}

/// A very light grey.
#[verifier::when_used_as_spec(spec_whitesmoke)]
pub fn whitesmoke() -> (c: Color)
    ensures
        c == spec_whitesmoke(),
{
    Color::new(245, 245, 245, 255)
}

/// Light grey.
pub open spec fn spec_lightgray() -> Color {
    rgba(211, 211, 211, 255)
}

/// Light grey.
#[verifier::when_used_as_spec(spec_lightgray)]
pub fn lightgray() -> (c: Color)
    ensures
        c == spec_lightgray(),
{
    Color::new(211, 211, 211, 255)
}

/// Medium grey.
pub open spec fn spec_gray() -> Color {
    rgba(128, 128, 128, 255)
}

/// Medium grey.
#[verifier::when_used_as_spec(spec_gray)]
pub fn gray() -> (c: Color)
    ensures
        c == spec_gray(),
{
    Color::new(128, 128, 128, 255)
}

/// Pure red.
pub open spec fn spec_red() -> Color {
    rgba(255, 0, 0, 255)
}

/// Pure red.
#[verifier::when_used_as_spec(spec_red)]
pub fn red() -> (c: Color)
    ensures
        c == spec_red(),
{
    Color::new(255, 0, 0, 255)
}

/// Orange.
pub open spec fn spec_orange() -> Color {
    rgba(255, 165, 0, 255)
}

/// Orange.
#[verifier::when_used_as_spec(spec_orange)]
pub fn orange() -> (c: Color)
    ensures
        c == spec_orange(),
{
    Color::new(255, 165, 0, 255)
}

/// Pure yellow.
pub open spec fn spec_yellow() -> Color {
    rgba(255, 255, 0, 255)
}

/// Pure yellow.
#[verifier::when_used_as_spec(spec_yellow)]
pub fn yellow() -> (c: Color)
    ensures
        c == spec_yellow(),
{
    Color::new(255, 255, 0, 255)
}

/// Dark green.
pub open spec fn spec_green() -> Color {
    rgba(0, 128, 0, 255)
}

/// Dark green.
#[verifier::when_used_as_spec(spec_green)]
pub fn green() -> (c: Color)
    ensures
        c == spec_green(),
{
    Color::new(0, 128, 0, 255)
}

/// Sky blue.
pub open spec fn spec_skyblue() -> Color {
    rgba(135, 206, 235, 255)
}

/// Sky blue.
#[verifier::when_used_as_spec(spec_skyblue)]
pub fn skyblue() -> (c: Color)
    ensures
        c == spec_skyblue(),
{
    Color::new(135, 206, 235, 255)
}

/// Pure blue.
pub open spec fn spec_blue() -> Color {
    rgba(0, 0, 255, 255)
}

/// Pure blue.
#[verifier::when_used_as_spec(spec_blue)]
pub fn blue() -> (c: Color)
    ensures
        c == spec_blue(),
{
    Color::new(0, 0, 255, 255)
}

/// Gold.
pub open spec fn spec_gold() -> Color {
    rgba(255, 215, 0, 255)
}

/// Gold.
#[verifier::when_used_as_spec(spec_gold)]
pub fn gold() -> (c: Color)
    ensures
        c == spec_gold(),
{
    Color::new(255, 215, 0, 255)
}

/// Black that lets a little through.
pub open spec fn spec_shade() -> Color {
    rgba(0, 0, 0, 180)
}

/// Black that lets a little through.
#[verifier::when_used_as_spec(spec_shade)]
pub fn shade() -> (c: Color)
    ensures
        c == spec_shade(),
{
    Color::new(0, 0, 0, 180)
}

/// Black that lets very little through.
pub open spec fn spec_deep_shade() -> Color {
    rgba(0, 0, 0, 200)
}

/// Black that lets very little through.
#[verifier::when_used_as_spec(spec_deep_shade)]
pub fn deep_shade() -> (c: Color)
    ensures
        c == spec_deep_shade(),
{
    Color::new(0, 0, 0, 200)
}

/// Black that lets some through.
pub open spec fn spec_veil() -> Color {
    rgba(0, 0, 0, 150)
}

/// Black that lets some through.
#[verifier::when_used_as_spec(spec_veil)]
pub fn veil() -> (c: Color)
    ensures
        c == spec_veil(),
{
    Color::new(0, 0, 0, 150)
}

} // verus!
