//! El teclado virtual por el que salen las teclas ya traducidas: sus
//! peticiones a `/dev/uinput` y las teclas que declara.
use vstd::prelude::*;

verus! {

pub const EV_SYN: u16 = 0x00;

pub const EV_KEY: u16 = 0x01;

pub const EV_LED: u16 = 0x11;

pub const SYN_REPORT: u16 = 0;

pub const LED_MAX: u16 = 0x0f;

pub const BUS_VIRTUAL: u16 = 0x06;

/// El tipo de las peticiones de uinput en `<linux/uinput.h>`: `'U'`.
pub const TIPO_UINPUT: u64 = 0x55;

/// `_IOC_WRITE << _IOC_DIRSHIFT` de `<asm-generic/ioctl.h>`.
pub const IOC_ESCRITURA: u64 = 0x4000_0000;

/// `sizeof(struct uinput_setup)`: un `input_id` de cuatro `u16`, un nombre de
/// 80 bytes y un `u32`.
pub const TAM_UINPUT_SETUP: u64 = 92;

/// `sizeof(int)`.
pub const TAM_C_INT: u64 = 4;

/// `_IOW('U', nr, tamaño)` de `<asm-generic/ioctl.h>`.
pub open spec fn peticion_escritura(nr: u64, tamano: u64) -> u64 {
    (IOC_ESCRITURA + tamano * 0x10000 + TIPO_UINPUT * 0x100 + nr) as u64
}

/// `_IO('U', 1)`.
pub const UI_DEV_CREATE: u64 = (TIPO_UINPUT << 8) | 1;

/// `_IOW('U', 3, struct uinput_setup)`.
pub const UI_DEV_SETUP: u64 = IOC_ESCRITURA | (TAM_UINPUT_SETUP << 16) | (TIPO_UINPUT << 8) | 3;

/// `_IOW('U', 100, int)`.
pub const UI_SET_EVBIT: u64 = IOC_ESCRITURA | (TAM_C_INT << 16) | (TIPO_UINPUT << 8) | 100;

/// `_IOW('U', 101, int)`.
pub const UI_SET_KEYBIT: u64 = IOC_ESCRITURA | (TAM_C_INT << 16) | (TIPO_UINPUT << 8) | 101;

/// `_IOW('U', 105, int)`.
pub const UI_SET_LEDBIT: u64 = IOC_ESCRITURA | (TAM_C_INT << 16) | (TIPO_UINPUT << 8) | 105;

/// `_IOW('U', nr, tamaño)`: dirección, tamaño, tipo y número en sus campos.
pub fn iow(nr: u64, tamano: u64) -> (r: u64)
    requires
        nr < 0x100,
        tamano < 0x4000,
    ensures
        r == peticion_escritura(nr, tamano),
{
    let r = (1u64 << 30) | (tamano << 16) | (TIPO_UINPUT << 8) | nr;
    assert(r == (0x4000_0000u64 + tamano * 0x10000 + 0x55 * 0x100 + nr)) by (bit_vector)
        requires
            nr < 0x100,
            tamano < 0x4000,
            r == (1u64 << 30) | (tamano << 16) | (0x55u64 << 8) | nr,
    ;
    r
}

/// Las peticiones fijas son las de `_IO` e `_IOW` con sus números y tamaños.
pub proof fn lema_peticiones()
    ensures
        UI_DEV_CREATE == TIPO_UINPUT * 0x100 + 1,
        UI_DEV_SETUP == peticion_escritura(3, TAM_UINPUT_SETUP),
        UI_SET_EVBIT == peticion_escritura(100, TAM_C_INT),
        UI_SET_KEYBIT == peticion_escritura(101, TAM_C_INT),
        UI_SET_LEDBIT == peticion_escritura(105, TAM_C_INT),
{
    assert((0x55u64 << 8) | 1 == 0x5501) by (bit_vector);
    assert(0x4000_0000u64 | (92u64 << 16) | (0x55u64 << 8) | 3 == 0x405c5503) by (bit_vector);
    assert(0x4000_0000u64 | (4u64 << 16) | (0x55u64 << 8) | 100 == 0x40045564) by (bit_vector);
    assert(0x4000_0000u64 | (4u64 << 16) | (0x55u64 << 8) | 101 == 0x40045565) by (bit_vector);
    assert(0x4000_0000u64 | (4u64 << 16) | (0x55u64 << 8) | 105 == 0x40045569) by (bit_vector);
}

/// Todas las teclas menos los botones (`BTN_*`: 0x100–0x15f y 0x2c0–0x2e7).
/// Con ellos libinput tomaría el dispositivo por un ratón o un mando.
pub open spec fn es_tecla_virtual(c: u16) -> bool {
    ||| (1 <= c && c < 0x100)
    ||| (0x160 <= c && c < 0x2c0)
    ||| (0x2e8 <= c && c <= 0x2ff)
}

/// Las teclas que declara el teclado virtual, de menor a mayor.
pub fn teclas() -> (r: Vec<u16>)
    ensures
        forall|i: int, j: int| 0 <= i < j < r@.len() ==> r@[i] < r@[j],
        forall|c: u16| #![trigger r@.contains(c)] r@.contains(c) <==> es_tecla_virtual(c),
{
    let mut r: Vec<u16> = Vec::new();
    let mut c: u16 = 1;
    while c <= 0x2ff
        invariant
            1 <= c <= 0x300,
            forall|i: int, j: int| 0 <= i < j < r@.len() ==> r@[i] < r@[j],
            forall|i: int| 0 <= i < r@.len() ==> r@[i] < c,
            forall|d: u16| #![trigger r@.contains(d)] r@.contains(d) <==> (es_tecla_virtual(d) && d < c),
        decreases 0x300 - c,
    {
        let ghost antes = r@;
        if (c < 0x100) || (0x160 <= c && c < 0x2c0) || (0x2e8 <= c) {
            r.push(c);
            proof {
                assert forall|d: u16| #![trigger r@.contains(d)] r@.contains(d) <==> (es_tecla_virtual(d)
                    && d < c + 1) by {
                    if r@.contains(d) && d != c {
                        let i = choose|i: int| 0 <= i < r@.len() && r@[i] == d;
                        assert(antes.contains(d)) by {
                            assert(antes[i] == d);
                        }
                    }
                    if es_tecla_virtual(d) && d < c + 1 && d != c {
                        assert(antes.contains(d));
                        let i = choose|i: int| 0 <= i < antes.len() && antes[i] == d;
                        assert(r@[i] == d);
                    }
                    if d == c {
                        assert(r@[r@.len() - 1] == c);
                    }
                }
            }
        } else {
            assert forall|d: u16| #![trigger r@.contains(d)] r@.contains(d) <==> (es_tecla_virtual(d)
                && d < c + 1) by {
                if r@.contains(d) {
                    let i = choose|i: int| 0 <= i < r@.len() && r@[i] == d;
                    assert(r@[i] < c);
                }
            }
        }
        c = c + 1;
    }
    r
}

/// Un evento leído del teclado virtual es un LED que fija el escritorio si es
/// de tipo `EV_LED` y su código no pasa de `LED_MAX`: entonces `(led, valor)`.
/// Cualquier otro se ignora.
pub fn led_fijado(tipo: u16, codigo: u16, valor: i32) -> (r: Option<(u16, i32)>)
    ensures
        r == (if tipo == EV_LED && codigo <= LED_MAX {
            Some((codigo, valor))
        } else {
            None
        }),
{
    if tipo == EV_LED && codigo <= LED_MAX {
        Some((codigo, valor))
    } else {
        None
    }
}

} // verus!
