//! Building blocks for a software ray tracer: points and vectors
//! ([`tuple`]), colours ([`color`]), and a canvas of colours ([`canvas`])
//! with its rendering as a plain-text PPM image ([`ppm`]).
//!
//! Numbers are IEEE 754 binary floating-point numbers, held as their bits:
//! the coordinates of a tuple in double precision ([`double`]), the channels
//! of a colour in single precision ([`single`]). Their arithmetic is done on
//! the bits in integer arithmetic ([`ieee`]), so that what every operation
//! returns is stated exactly, for every input, NaN and the infinities
//! included. To hand a number in, take its bits (`to_bits`); to read a
//! result, make a number of the bits (`from_bits`).
pub mod canvas;
pub mod color;
pub mod decimal;
pub mod double;
pub mod ieee;
pub mod ppm;
pub mod single;
pub mod tuple;
pub mod utils;
