//! Las decisiones del cliente de los remapeos: quién los aplica y qué se
//! responde a la interfaz.
//!
//! En la sesión BookOS los aplica el compositor (`org.bookos.Desktop`, bus de
//! sesión). En cualquier otro escritorio, `bookos-teclasd` (`org.bookos.Teclas`,
//! bus de sistema), que habla el mismo subconjunto de métodos pero solo sabe de
//! teclas.
use vstd::prelude::*;

verus! {

/// Quién aplica los remapeos.
#[derive(Debug, Clone, Copy, PartialEq, Eq, Structural)]
pub enum Motor {
    /// El compositor de BookOS.
    Escritorio,
    /// `bookos-teclasd`.
    Sistema,
}

/// El compositor manda si está, porque es el único con las funciones de
/// BookOS. Si no, el servicio del sistema, si responde. Si no, nadie.
pub fn elegir_motor(escritorio_sabe_remapear: bool, servicio_responde: bool) -> (r: Option<Motor>)
    ensures
        r == (if escritorio_sabe_remapear {
            Some(Motor::Escritorio)
        } else if servicio_responde {
            Some(Motor::Sistema)
        } else {
            None
        }),
{
    if escritorio_sabe_remapear {
        Some(Motor::Escritorio)
    } else if servicio_responde {
        Some(Motor::Sistema)
    } else {
        None
    }
}

impl Motor {
    /// Cómo se llama ante la interfaz: `"escritorio"` o `"sistema"`.
    pub fn nombre(self) -> (r: &'static str)
        ensures
            r@ == (match self {
                Motor::Escritorio => "escritorio"@,
                Motor::Sistema => "sistema"@,
            }),
    {
        match self {
            Motor::Escritorio => "escritorio",
            Motor::Sistema => "sistema",
        }
    }
}

/// La respuesta de `ApplyKeyRemaps`, `(ok, error)`, como resultado.
pub fn resultado_de_aplicar(ok: bool, error: String) -> (r: Result<(), String>)
    ensures
        r == (if ok {
            Ok::<(), String>(())
        } else {
            Err(error)
        }),
{
    if ok {
        Ok(())
    } else {
        Err(error)
    }
}

/// Al vencer el plazo de una captura solo se desarma si nadie ha empezado
/// otra, o se apagaría la nueva.
pub fn debe_desarmar(captura_en_curso: u64, numero: u64) -> (r: bool)
    ensures
        r == (captura_en_curso == numero),
{
    captura_en_curso == numero
}

} // verus!
