//! Las decisiones del servicio que captura los teclados físicos: qué hacer con
//! cada evento, qué teclados capturar y qué pilotos encender.
use vstd::prelude::*;

use crate::teclas::Remapeos;
use crate::texto::caracteres;
use crate::traductor::{es_acorde_copilot, repeticion_de, traducir_evento, EstadoTraductor, Traductor};
use crate::uinput::LED_MAX;

verus! {

/// Los modificadores no se capturan: son la primera mitad del acorde de
/// Copilot, y al pulsarlos no se sabe si viene algo detrás.
pub open spec fn es_modificador(evdev: u32) -> bool {
    ||| evdev == 29
    ||| evdev == 97
    ||| evdev == 42
    ||| evdev == 54
    ||| evdev == 56
    ||| evdev == 100
    ||| evdev == 125
    ||| evdev == 126
}

pub fn modificador(evdev: u32) -> (r: bool)
    ensures
        r == es_modificador(evdev),
{
    evdev == 29 || evdev == 97 || evdev == 42 || evdev == 54 || evdev == 56 || evdev == 100 || evdev
        == 125 || evdev == 126
}

/// Una pulsación que no es de un modificador se la puede quedar la captura.
pub open spec fn se_puede_capturar(evdev: u32, valor: i32) -> bool {
    valor == 1 && !es_modificador(evdev)
}

pub fn pide_captura(evdev: u32, valor: i32) -> (r: bool)
    ensures
        r == se_puede_capturar(evdev, valor),
{
    valor == 1 && !modificador(evdev)
}

/// Lo que hay que hacer con un evento de tecla.
#[derive(Debug, Clone, PartialEq, Eq)]
pub enum Accion {
    /// Mandar esta tecla con valor 2 (repetición).
    Repetir(u32),
    /// No mandar nada.
    Ninguna,
    /// La pulsación es para quien armó la captura.
    Capturada { evdev: u32, copilot: bool },
    /// Mandar estos `(código, pulsada)`.
    Enviar(Vec<(u32, bool)>),
}

impl Traductor {
    /// Un evento de tecla con `valor` 0 (suelta), 1 (pulsa) o 2 (repite).
    /// `captura_armada` dice si alguien esperaba esta pulsación.
    pub fn atender(&mut self, mapa: &Remapeos, evdev: u32, valor: i32, captura_armada: bool) -> (r:
        Accion)
        ensures
            valor == 2 ==> final(self)@ == old(self)@ && r == match repeticion_de(
                old(self)@,
                evdev,
            ) {
                Some(d) => Accion::Repetir(d),
                None => Accion::Ninguna,
            },
            valor != 2 && captura_armada && se_puede_capturar(evdev, valor) ==> {
                &&& final(self)@ == (EstadoTraductor {
                    fisicas: old(self)@.fisicas,
                    pulsadas: old(self)@.pulsadas,
                    tragar: old(self)@.tragar.push(evdev),
                })
                &&& r == Accion::Capturada {
                    evdev,
                    copilot: es_acorde_copilot(old(self)@, evdev),
                }
            },
            valor != 2 && !(captura_armada && se_puede_capturar(evdev, valor)) ==> match r {
                Accion::Enviar(eventos) => (final(self)@, eventos@) == traducir_evento(
                    old(self)@,
                    mapa@,
                    evdev,
                    valor == 1,
                ),
                _ => false,
            },
    {
        if valor == 2 {
            return match self.repeticion(evdev) {
                Some(d) => Accion::Repetir(d),
                None => Accion::Ninguna,
            };
        }
        let pulsada = valor == 1;
        if captura_armada && pide_captura(evdev, valor) {
            self.tragar_suelta(evdev);
            let copilot = self.es_copilot(evdev);
            return Accion::Capturada { evdev, copilot };
        }
        Accion::Enviar(self.traducir(mapa, evdev, pulsada))
    }
}

/// El bit `b` de `m`.
pub open spec fn bit(m: u16, b: u16) -> bool {
    (m >> b) & 1 == 1
}

/// Los eventos de LED que copian `mascara` en un teclado: `(led, valor)` para
/// cada LED de 0 a `LED_MAX`.
pub fn eventos_leds(mascara: u16) -> (r: Vec<(u16, i32)>)
    ensures
        r@.len() == LED_MAX + 1,
        forall|i: int|
            0 <= i < r@.len() ==> (#[trigger] r@[i]).0 == i && r@[i].1 == (if bit(
                mascara,
                i as u16,
            ) {
                1i32
            } else {
                0i32
            }),
{
    let mut r: Vec<(u16, i32)> = Vec::new();
    let mut led: u16 = 0;
    while led <= LED_MAX
        invariant
            led <= LED_MAX + 1,
            r@.len() == led,
            forall|i: int|
                0 <= i < r@.len() ==> (#[trigger] r@[i]).0 == i && r@[i].1 == (if bit(
                    mascara,
                    i as u16,
                ) {
                    1i32
                } else {
                    0i32
                }),
        decreases LED_MAX + 1 - led,
    {
        let v = (mascara >> led) & 1;
        assert(v == 0 || v == 1) by (bit_vector)
            requires
                v == (mascara >> led) & 1,
        ;
        let valor: i32 = if v == 1 {
            1
        } else {
            0
        };
        r.push((led, valor));
        led = led + 1;
    }
    r
}

/// La máscara de LED tras fijar `led` a `valor`: encendido si `valor` no es 0.
pub fn fijar_led(mascara: u16, led: u16, valor: i32) -> (r: u16)
    requires
        led <= LED_MAX,
    ensures
        bit(r, led) == (valor != 0),
        forall|b: u16| b <= LED_MAX && b != led ==> bit(r, b) == bit(mascara, b),
{
    if valor != 0 {
        let r = mascara | (1u16 << led);
        assert(bit(r, led)) by (bit_vector)
            requires
                led <= 15,
                r == mascara | (1u16 << led),
        ;
        assert forall|b: u16| b <= LED_MAX && b != led implies bit(r, b) == bit(mascara, b) by {
            assert(((r >> b) & 1 == 1) == ((mascara >> b) & 1 == 1)) by (bit_vector)
                requires
                    led <= 15,
                    b <= 15,
                    b != led,
                    r == mascara | (1u16 << led),
            ;
        }
        r
    } else {
        let r = mascara & !(1u16 << led);
        assert(!bit(r, led)) by (bit_vector)
            requires
                led <= 15,
                r == mascara & !(1u16 << led),
        ;
        assert forall|b: u16| b <= LED_MAX && b != led implies bit(r, b) == bit(mascara, b) by {
            assert(((r >> b) & 1 == 1) == ((mascara >> b) & 1 == 1)) by (bit_vector)
                requires
                    led <= 15,
                    b <= 15,
                    b != led,
                    r == mascara & !(1u16 << led),
            ;
        }
        r
    }
}

/// El nombre con el que se ven el teclado virtual libinput y el escritorio.
pub open spec fn es_nombre_del_teclado_virtual(nombre: Seq<char>) -> bool {
    nombre == "BookOS Teclas"@
}

fn iguales(a: &[char], b: &[char]) -> (r: bool)
    ensures
        r == (a@ == b@),
{
    if a.len() != b.len() {
        return false;
    }
    let mut i: usize = 0;
    while i < a.len()
        invariant
            i <= a@.len(),
            a@.len() == b@.len(),
            forall|j: int| 0 <= j < i ==> a@[j] == b@[j],
        decreases a@.len() - i,
    {
        if a[i] != b[i] {
            return false;
        }
        i = i + 1;
    }
    assert(a@ =~= b@);
    true
}

/// Un teclado de verdad: con letras e Intro, sin ejes que moverían un
/// puntero, y que no es el teclado virtual, que se capturaría a sí mismo.
pub fn es_teclado(
    nombre: Option<&str>,
    tiene_a_e_intro: bool,
    tiene_ejes_relativos: bool,
    tiene_ejes_absolutos: bool,
) -> (r: bool)
    ensures
        r == ((match nombre {
            Some(n) => !es_nombre_del_teclado_virtual(n@),
            None => true,
        }) && tiene_a_e_intro && !tiene_ejes_relativos && !tiene_ejes_absolutos),
{
    let virtual_ = match nombre {
        Some(n) => {
            let propio = caracteres("BookOS Teclas");
            let visto = caracteres(n);
            iguales(&visto, &propio)
        },
        None => false,
    };
    !virtual_ && tiene_a_e_intro && !tiene_ejes_relativos && !tiene_ejes_absolutos
}

/// Los nodos de `/dev/input` que son dispositivos de eventos: los que
/// empiezan por `event` (101, 118, 101, 110, 116 en ASCII).
pub open spec fn es_nodo_de_eventos(nombre: Seq<u8>) -> bool {
    seq![101u8, 118u8, 101u8, 110u8, 116u8].is_prefix_of(nombre)
}

pub fn nodo_de_eventos(nombre: &[u8]) -> (r: bool)
    ensures
        r == es_nodo_de_eventos(nombre@),
{
    let r = nombre.len() >= 5 && nombre[0] == 101 && nombre[1] == 118 && nombre[2] == 101
        && nombre[3] == 110 && nombre[4] == 116;
    proof {
        let evento = seq![101u8, 118u8, 101u8, 110u8, 116u8];
        if r {
            assert(nombre@.subrange(0, 5) =~= evento);
        }
        if evento.is_prefix_of(nombre@) {
            assert(nombre@.subrange(0, 5) =~= evento);
            assert(nombre@[0] == nombre@.subrange(0, 5)[0]);
            assert(nombre@[1] == nombre@.subrange(0, 5)[1]);
            assert(nombre@[2] == nombre@.subrange(0, 5)[2]);
            assert(nombre@[3] == nombre@.subrange(0, 5)[3]);
            assert(nombre@[4] == nombre@.subrange(0, 5)[4]);
        }
    }
    r
}

/// Qué hacer con un nodo de `/dev/input` que no se había visto y se pudo abrir.
#[derive(Debug, Clone, Copy, PartialEq, Eq, Structural)]
pub enum PasoNodo {
    /// No es un teclado: se recuerda para no volver a abrirlo, y no se captura.
    Descartar,
    /// Es un teclado con alguna tecla abajo: capturarlo la dejaría pulsada
    /// para siempre en el escritorio, porque su suelta ya no le llegaría. No se
    /// recuerda, y se prueba en la siguiente vuelta.
    Esperar,
    /// Es un teclado sin teclas abajo: se recuerda y se captura.
    Capturar,
}

/// El paso de un nodo nuevo, según si es un teclado y si tiene alguna tecla
/// abajo (esto último solo cuenta en un teclado).
pub fn decidir_nodo(teclado: bool, tecla_abajo: bool) -> (r: PasoNodo)
    ensures
        r == (if !teclado {
            PasoNodo::Descartar
        } else if tecla_abajo {
            PasoNodo::Esperar
        } else {
            PasoNodo::Capturar
        }),
{
    if !teclado {
        PasoNodo::Descartar
    } else if tecla_abajo {
        PasoNodo::Esperar
    } else {
        PasoNodo::Capturar
    }
}

/// Ley: una pulsación (valor 1) se la puede quedar la captura si y solo si no
/// es de uno de los ocho modificadores, Ctrl, Mayús, Alt y Meta a los dos lados
/// (`KEY_LEFTCTRL` 29, `KEY_RIGHTCTRL` 97, `KEY_LEFTSHIFT` 42, `KEY_RIGHTSHIFT`
/// 54, `KEY_LEFTALT` 56, `KEY_RIGHTALT` 100, `KEY_LEFTMETA` 125,
/// `KEY_RIGHTMETA` 126); una suelta o una repetición nunca.
pub proof fn ley_que_se_captura(c: u32, valor: i32)
    ensures
        se_puede_capturar(c, valor) <==> (valor == 1 && c != 29 && c != 97 && c != 42 && c != 54 && c
            != 56 && c != 100 && c != 125 && c != 126),
{
}

} // verus!
