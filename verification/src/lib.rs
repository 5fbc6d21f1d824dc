//! Remapeo de teclas de BookOS: el formato de `teclas.conf`, la traducción de
//! cada evento de teclado y las decisiones del servicio que la aplica.
use vstd::prelude::*;

pub mod escritorio;
pub mod leyendas;
pub mod nombres;
pub mod servicio;
pub mod teclas;
pub mod texto;
pub mod traductor;
pub mod uinput;
pub mod vistos;

verus! {

} // verus!
