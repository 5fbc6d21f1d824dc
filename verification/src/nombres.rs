//! Los nombres de tecla que ofrece la app, cada uno con su código de
//! `input-event-codes.h`. Cualquier otra tecla se escribe como `evdev:N`.
use vstd::prelude::*;

verus! {

/// La tabla de nombres: cada nombre con su código.
pub open spec fn tabla() -> Seq<(Seq<char>, u32)> {
    seq![
        (seq!['c', 't', 'r', 'l'], 29u32),
        (seq!['c', 't', 'r', 'l', '_', 'd', 'e', 'r'], 97u32),
        (seq!['s', 'h', 'i', 'f', 't'], 42u32),
        (seq!['s', 'h', 'i', 'f', 't', '_', 'd', 'e', 'r'], 54u32),
        (seq!['a', 'l', 't'], 56u32),
        (seq!['a', 'l', 't', 'g', 'r'], 100u32),
        (seq!['m', 'e', 't', 'a'], 125u32),
        (seq!['m', 'e', 't', 'a', '_', 'd', 'e', 'r'], 126u32),
        (seq!['e', 's', 'c'], 1u32),
        (seq!['r', 'e', 't', 'r', 'o', 'c', 'e', 's', 'o'], 14u32),
        (seq!['t', 'a', 'b'], 15u32),
        (seq!['i', 'n', 't', 'r', 'o'], 28u32),
        (seq!['e', 's', 'p', 'a', 'c', 'i', 'o'], 57u32),
        (seq!['b', 'l', 'o', 'q', 'm', 'a', 'y', 'u', 's'], 58u32),
        (seq!['i', 'm', 'p', 'r'], 99u32),
        (seq!['i', 'n', 'i', 'c', 'i', 'o'], 102u32),
        (seq!['a', 'r', 'r', 'i', 'b', 'a'], 103u32),
        (seq!['r', 'e', 'p', 'a', 'g'], 104u32),
        (seq!['i', 'z', 'q', 'u', 'i', 'e', 'r', 'd', 'a'], 105u32),
        (seq!['d', 'e', 'r', 'e', 'c', 'h', 'a'], 106u32),
        (seq!['f', 'i', 'n'], 107u32),
        (seq!['a', 'b', 'a', 'j', 'o'], 108u32),
        (seq!['a', 'v', 'p', 'a', 'g'], 109u32),
        (seq!['i', 'n', 's', 'e', 'r', 't'], 110u32),
        (seq!['s', 'u', 'p', 'r'], 111u32),
        (seq!['s', 'i', 'l', 'e', 'n', 'c', 'i', 'o'], 113u32),
        (seq!['b', 'a', 'j', 'a', 'r', '_', 'v', 'o', 'l', 'u', 'm', 'e', 'n'], 114u32),
        (seq!['s', 'u', 'b', 'i', 'r', '_', 'v', 'o', 'l', 'u', 'm', 'e', 'n'], 115u32),
        (seq!['m', 'e', 'n', 'u'], 127u32),
        (seq!['s', 'i', 'g', 'u', 'i', 'e', 'n', 't', 'e'], 163u32),
        (seq!['r', 'e', 'p', 'r', 'o', 'd', 'u', 'c', 'i', 'r'], 164u32),
        (seq!['a', 'n', 't', 'e', 'r', 'i', 'o', 'r'], 165u32),
    ]
}

/// El código del primer nombre `s` de la tabla `t`.
pub open spec fn codigo_en(t: Seq<(Seq<char>, u32)>, s: Seq<char>) -> Option<u32>
    decreases t.len(),
{
    if t.len() == 0 {
        None
    } else if t[0].0 == s {
        Some(t[0].1)
    } else {
        codigo_en(t.drop_first(), s)
    }
}

/// El nombre del primer código `c` de la tabla `t`.
pub open spec fn nombre_en(t: Seq<(Seq<char>, u32)>, c: u32) -> Option<Seq<char>>
    decreases t.len(),
{
    if t.len() == 0 {
        None
    } else if t[0].1 == c {
        Some(t[0].0)
    } else {
        nombre_en(t.drop_first(), c)
    }
}

/// La tecla que tiene este nombre en la tabla.
pub open spec fn codigo_de_nombre(s: Seq<char>) -> Option<u32> {
    codigo_en(tabla(), s)
}

/// El nombre de una tecla, si la tabla le da uno.
pub open spec fn nombre_de_codigo(c: u32) -> Option<Seq<char>> {
    nombre_en(tabla(), c)
}

/// Solo minúsculas y guiones bajos, y al menos una letra.
pub open spec fn es_palabra(s: Seq<char>) -> bool {
    &&& s.len() > 0
    &&& forall|i: int| 0 <= i < s.len() ==> ('a' <= #[trigger] s[i] && s[i] <= 'z') || s[i] == '_'
}

/// `es_palabra`, letra a letra.
spec fn solo_letras(s: Seq<char>) -> bool
    decreases s.len(),
{
    s.len() == 0 || ((('a' <= s[0] && s[0] <= 'z') || s[0] == '_') && solo_letras(s.drop_first()))
}

/// Ningún nombre ni código se repite, cada nombre es una palabra y cada
/// código se puede escribir como `evdev:N`.
spec fn bien_hecha(t: Seq<(Seq<char>, u32)>) -> bool
    decreases t.len(),
{
    t.len() == 0 || {
        &&& t[0].0.len() > 0
        &&& solo_letras(t[0].0)
        &&& 1 <= t[0].1 <= 0x2ff
        &&& codigo_en(t.drop_first(), t[0].0) is None
        &&& nombre_en(t.drop_first(), t[0].1) is None
        &&& bien_hecha(t.drop_first())
    }
}

proof fn lema_solo_letras(s: Seq<char>)
    requires
        solo_letras(s),
    ensures
        forall|i: int| 0 <= i < s.len() ==> ('a' <= #[trigger] s[i] && s[i] <= 'z') || s[i] == '_',
    decreases s.len(),
{
    if s.len() > 0 {
        lema_solo_letras(s.drop_first());
        assert forall|i: int| 0 <= i < s.len() implies ('a' <= #[trigger] s[i] && s[i] <= 'z')
            || s[i] == '_' by {
            if i > 0 {
                assert(s[i] == s.drop_first()[i - 1]);
            }
        }
    }
}

proof fn lema_tabla_bien_hecha()
    ensures
        bien_hecha(tabla()),
{
    reveal_with_fuel(bien_hecha, 33);
    reveal_with_fuel(codigo_en, 33);
    reveal_with_fuel(nombre_en, 33);
    reveal_with_fuel(solo_letras, 14);
}

proof fn lema_nombre_en(t: Seq<(Seq<char>, u32)>, c: u32)
    requires
        bien_hecha(t),
    ensures
        nombre_en(t, c) matches Some(n) ==> {
            &&& codigo_en(t, n) == Some(c)
            &&& es_palabra(n)
            &&& 1 <= c <= 0x2ff
        },
    decreases t.len(),
{
    if t.len() > 0 {
        lema_nombre_en(t.drop_first(), c);
        if t[0].1 == c {
            lema_solo_letras(t[0].0);
        } else if let Some(n) = nombre_en(t.drop_first(), c) {
            if t[0].0 == n {
                assert(codigo_en(t.drop_first(), t[0].0) is Some);
            }
        }
    }
}

proof fn lema_codigo_en(t: Seq<(Seq<char>, u32)>, s: Seq<char>)
    requires
        bien_hecha(t),
    ensures
        codigo_en(t, s) matches Some(c) ==> 1 <= c <= 0x2ff,
    decreases t.len(),
{
    if t.len() > 0 {
        lema_codigo_en(t.drop_first(), s);
    }
}

/// Cada nombre de la tabla es una palabra y se lee como su tecla, que es un
/// código válido.
pub proof fn lema_nombre_de_codigo(c: u32)
    ensures
        nombre_de_codigo(c) matches Some(n) ==> {
            &&& codigo_de_nombre(n) == Some(c)
            &&& es_palabra(n)
            &&& 1 <= c <= 0x2ff
        },
{
    lema_tabla_bien_hecha();
    lema_nombre_en(tabla(), c);
}

/// Todo nombre de la tabla lleva a un código válido.
pub proof fn lema_codigo_de_nombre(s: Seq<char>)
    ensures
        codigo_de_nombre(s) matches Some(c) ==> 1 <= c <= 0x2ff,
{
    lema_tabla_bien_hecha();
    lema_codigo_en(tabla(), s);
}

/// En una tabla bien hecha cada entrada se encuentra por su nombre y por su
/// código.
proof fn lema_entrada(t: Seq<(Seq<char>, u32)>, i: int)
    requires
        bien_hecha(t),
        0 <= i < t.len(),
    ensures
        codigo_en(t, t[i].0) == Some(t[i].1),
        nombre_en(t, t[i].1) == Some(t[i].0),
    decreases i,
{
    if i > 0 {
        let resto = t.drop_first();
        assert(resto[i - 1] == t[i]);
        lema_entrada(resto, i - 1);
        if t[0].0 == t[i].0 {
            assert(codigo_en(resto, t[0].0) is Some);
        }
        if t[0].1 == t[i].1 {
            assert(nombre_en(resto, t[0].1) is Some);
        }
    }
}

proof fn lema_codigo_en_inverso(t: Seq<(Seq<char>, u32)>, s: Seq<char>)
    requires
        bien_hecha(t),
    ensures
        codigo_en(t, s) matches Some(c) ==> nombre_en(t, c) == Some(s),
    decreases t.len(),
{
    if t.len() > 0 {
        lema_codigo_en_inverso(t.drop_first(), s);
        if t[0].0 != s {
            if let Some(c) = codigo_en(t.drop_first(), s) {
                if t[0].1 == c {
                    assert(nombre_en(t.drop_first(), t[0].1) is Some);
                }
            }
        }
    }
}

proof fn lema_nombres_0()
    ensures
        codigo_de_nombre("ctrl"@) == Some(29u32),
        nombre_de_codigo(29u32) == Some("ctrl"@),
        codigo_de_nombre("ctrl_der"@) == Some(97u32),
        nombre_de_codigo(97u32) == Some("ctrl_der"@),
        codigo_de_nombre("shift"@) == Some(42u32),
        nombre_de_codigo(42u32) == Some("shift"@),
        codigo_de_nombre("shift_der"@) == Some(54u32),
        nombre_de_codigo(54u32) == Some("shift_der"@),
        codigo_de_nombre("alt"@) == Some(56u32),
        nombre_de_codigo(56u32) == Some("alt"@),
        codigo_de_nombre("altgr"@) == Some(100u32),
        nombre_de_codigo(100u32) == Some("altgr"@),
        codigo_de_nombre("meta"@) == Some(125u32),
        nombre_de_codigo(125u32) == Some("meta"@),
        codigo_de_nombre("meta_der"@) == Some(126u32),
        nombre_de_codigo(126u32) == Some("meta_der"@),
{
    lema_tabla_bien_hecha();
    reveal_strlit("ctrl");
    assert("ctrl"@ =~= seq!['c', 't', 'r', 'l']);
    lema_entrada(tabla(), 0);
    reveal_strlit("ctrl_der");
    assert("ctrl_der"@ =~= seq!['c', 't', 'r', 'l', '_', 'd', 'e', 'r']);
    lema_entrada(tabla(), 1);
    reveal_strlit("shift");
    assert("shift"@ =~= seq!['s', 'h', 'i', 'f', 't']);
    lema_entrada(tabla(), 2);
    reveal_strlit("shift_der");
    assert("shift_der"@ =~= seq!['s', 'h', 'i', 'f', 't', '_', 'd', 'e', 'r']);
    lema_entrada(tabla(), 3);
    reveal_strlit("alt");
    assert("alt"@ =~= seq!['a', 'l', 't']);
    lema_entrada(tabla(), 4);
    reveal_strlit("altgr");
    assert("altgr"@ =~= seq!['a', 'l', 't', 'g', 'r']);
    lema_entrada(tabla(), 5);
    reveal_strlit("meta");
    assert("meta"@ =~= seq!['m', 'e', 't', 'a']);
    lema_entrada(tabla(), 6);
    reveal_strlit("meta_der");
    assert("meta_der"@ =~= seq!['m', 'e', 't', 'a', '_', 'd', 'e', 'r']);
    lema_entrada(tabla(), 7);
}

proof fn lema_nombres_1()
    ensures
        codigo_de_nombre("esc"@) == Some(1u32),
        nombre_de_codigo(1u32) == Some("esc"@),
        codigo_de_nombre("retroceso"@) == Some(14u32),
        nombre_de_codigo(14u32) == Some("retroceso"@),
        codigo_de_nombre("tab"@) == Some(15u32),
        nombre_de_codigo(15u32) == Some("tab"@),
        codigo_de_nombre("intro"@) == Some(28u32),
        nombre_de_codigo(28u32) == Some("intro"@),
        codigo_de_nombre("espacio"@) == Some(57u32),
        nombre_de_codigo(57u32) == Some("espacio"@),
        codigo_de_nombre("bloqmayus"@) == Some(58u32),
        nombre_de_codigo(58u32) == Some("bloqmayus"@),
        codigo_de_nombre("impr"@) == Some(99u32),
        nombre_de_codigo(99u32) == Some("impr"@),
        codigo_de_nombre("inicio"@) == Some(102u32),
        nombre_de_codigo(102u32) == Some("inicio"@),
{
    lema_tabla_bien_hecha();
    reveal_strlit("esc");
    assert("esc"@ =~= seq!['e', 's', 'c']);
    lema_entrada(tabla(), 8);
    reveal_strlit("retroceso");
    assert("retroceso"@ =~= seq!['r', 'e', 't', 'r', 'o', 'c', 'e', 's', 'o']);
    lema_entrada(tabla(), 9);
    reveal_strlit("tab");
    assert("tab"@ =~= seq!['t', 'a', 'b']);
    lema_entrada(tabla(), 10);
    reveal_strlit("intro");
    assert("intro"@ =~= seq!['i', 'n', 't', 'r', 'o']);
    lema_entrada(tabla(), 11);
    reveal_strlit("espacio");
    assert("espacio"@ =~= seq!['e', 's', 'p', 'a', 'c', 'i', 'o']);
    lema_entrada(tabla(), 12);
    reveal_strlit("bloqmayus");
    assert("bloqmayus"@ =~= seq!['b', 'l', 'o', 'q', 'm', 'a', 'y', 'u', 's']);
    lema_entrada(tabla(), 13);
    reveal_strlit("impr");
    assert("impr"@ =~= seq!['i', 'm', 'p', 'r']);
    lema_entrada(tabla(), 14);
    reveal_strlit("inicio");
    assert("inicio"@ =~= seq!['i', 'n', 'i', 'c', 'i', 'o']);
    lema_entrada(tabla(), 15);
}

proof fn lema_nombres_2()
    ensures
        codigo_de_nombre("arriba"@) == Some(103u32),
        nombre_de_codigo(103u32) == Some("arriba"@),
        codigo_de_nombre("repag"@) == Some(104u32),
        nombre_de_codigo(104u32) == Some("repag"@),
        codigo_de_nombre("izquierda"@) == Some(105u32),
        nombre_de_codigo(105u32) == Some("izquierda"@),
        codigo_de_nombre("derecha"@) == Some(106u32),
        nombre_de_codigo(106u32) == Some("derecha"@),
        codigo_de_nombre("fin"@) == Some(107u32),
        nombre_de_codigo(107u32) == Some("fin"@),
        codigo_de_nombre("abajo"@) == Some(108u32),
        nombre_de_codigo(108u32) == Some("abajo"@),
        codigo_de_nombre("avpag"@) == Some(109u32),
        nombre_de_codigo(109u32) == Some("avpag"@),
        codigo_de_nombre("insert"@) == Some(110u32),
        nombre_de_codigo(110u32) == Some("insert"@),
{
    lema_tabla_bien_hecha();
    reveal_strlit("arriba");
    assert("arriba"@ =~= seq!['a', 'r', 'r', 'i', 'b', 'a']);
    lema_entrada(tabla(), 16);
    reveal_strlit("repag");
    assert("repag"@ =~= seq!['r', 'e', 'p', 'a', 'g']);
    lema_entrada(tabla(), 17);
    reveal_strlit("izquierda");
    assert("izquierda"@ =~= seq!['i', 'z', 'q', 'u', 'i', 'e', 'r', 'd', 'a']);
    lema_entrada(tabla(), 18);
    reveal_strlit("derecha");
    assert("derecha"@ =~= seq!['d', 'e', 'r', 'e', 'c', 'h', 'a']);
    lema_entrada(tabla(), 19);
    reveal_strlit("fin");
    assert("fin"@ =~= seq!['f', 'i', 'n']);
    lema_entrada(tabla(), 20);
    reveal_strlit("abajo");
    assert("abajo"@ =~= seq!['a', 'b', 'a', 'j', 'o']);
    lema_entrada(tabla(), 21);
    reveal_strlit("avpag");
    assert("avpag"@ =~= seq!['a', 'v', 'p', 'a', 'g']);
    lema_entrada(tabla(), 22);
    reveal_strlit("insert");
    assert("insert"@ =~= seq!['i', 'n', 's', 'e', 'r', 't']);
    lema_entrada(tabla(), 23);
}

proof fn lema_nombres_3()
    ensures
        codigo_de_nombre("supr"@) == Some(111u32),
        nombre_de_codigo(111u32) == Some("supr"@),
        codigo_de_nombre("silencio"@) == Some(113u32),
        nombre_de_codigo(113u32) == Some("silencio"@),
        codigo_de_nombre("bajar_volumen"@) == Some(114u32),
        nombre_de_codigo(114u32) == Some("bajar_volumen"@),
        codigo_de_nombre("subir_volumen"@) == Some(115u32),
        nombre_de_codigo(115u32) == Some("subir_volumen"@),
        codigo_de_nombre("menu"@) == Some(127u32),
        nombre_de_codigo(127u32) == Some("menu"@),
        codigo_de_nombre("siguiente"@) == Some(163u32),
        nombre_de_codigo(163u32) == Some("siguiente"@),
        codigo_de_nombre("reproducir"@) == Some(164u32),
        nombre_de_codigo(164u32) == Some("reproducir"@),
        codigo_de_nombre("anterior"@) == Some(165u32),
        nombre_de_codigo(165u32) == Some("anterior"@),
{
    lema_tabla_bien_hecha();
    reveal_strlit("supr");
    assert("supr"@ =~= seq!['s', 'u', 'p', 'r']);
    lema_entrada(tabla(), 24);
    reveal_strlit("silencio");
    assert("silencio"@ =~= seq!['s', 'i', 'l', 'e', 'n', 'c', 'i', 'o']);
    lema_entrada(tabla(), 25);
    reveal_strlit("bajar_volumen");
    assert("bajar_volumen"@ =~= seq!['b', 'a', 'j', 'a', 'r', '_', 'v', 'o', 'l', 'u', 'm', 'e', 'n']);
    lema_entrada(tabla(), 26);
    reveal_strlit("subir_volumen");
    assert("subir_volumen"@ =~= seq!['s', 'u', 'b', 'i', 'r', '_', 'v', 'o', 'l', 'u', 'm', 'e', 'n']);
    lema_entrada(tabla(), 27);
    reveal_strlit("menu");
    assert("menu"@ =~= seq!['m', 'e', 'n', 'u']);
    lema_entrada(tabla(), 28);
    reveal_strlit("siguiente");
    assert("siguiente"@ =~= seq!['s', 'i', 'g', 'u', 'i', 'e', 'n', 't', 'e']);
    lema_entrada(tabla(), 29);
    reveal_strlit("reproducir");
    assert("reproducir"@ =~= seq!['r', 'e', 'p', 'r', 'o', 'd', 'u', 'c', 'i', 'r']);
    lema_entrada(tabla(), 30);
    reveal_strlit("anterior");
    assert("anterior"@ =~= seq!['a', 'n', 't', 'e', 'r', 'i', 'o', 'r']);
    lema_entrada(tabla(), 31);
}

/// Ley: los nombres de tecla son los de la app, cada uno con su código de
/// `input-event-codes.h`, en los dos sentidos; y cada nombre aceptado es el
/// nombre de su código.
pub proof fn ley_nombres_de_teclas()
    ensures
        // KEY_LEFTCTRL
        codigo_de_nombre("ctrl"@) == Some(29u32),
        nombre_de_codigo(29u32) == Some("ctrl"@),
        // KEY_RIGHTCTRL
        codigo_de_nombre("ctrl_der"@) == Some(97u32),
        nombre_de_codigo(97u32) == Some("ctrl_der"@),
        // KEY_LEFTSHIFT
        codigo_de_nombre("shift"@) == Some(42u32),
        nombre_de_codigo(42u32) == Some("shift"@),
        // KEY_RIGHTSHIFT
        codigo_de_nombre("shift_der"@) == Some(54u32),
        nombre_de_codigo(54u32) == Some("shift_der"@),
        // KEY_LEFTALT
        codigo_de_nombre("alt"@) == Some(56u32),
        nombre_de_codigo(56u32) == Some("alt"@),
        // KEY_RIGHTALT
        codigo_de_nombre("altgr"@) == Some(100u32),
        nombre_de_codigo(100u32) == Some("altgr"@),
        // KEY_LEFTMETA
        codigo_de_nombre("meta"@) == Some(125u32),
        nombre_de_codigo(125u32) == Some("meta"@),
        // KEY_RIGHTMETA
        codigo_de_nombre("meta_der"@) == Some(126u32),
        nombre_de_codigo(126u32) == Some("meta_der"@),
        // KEY_ESC
        codigo_de_nombre("esc"@) == Some(1u32),
        nombre_de_codigo(1u32) == Some("esc"@),
        // KEY_BACKSPACE
        codigo_de_nombre("retroceso"@) == Some(14u32),
        nombre_de_codigo(14u32) == Some("retroceso"@),
        // KEY_TAB
        codigo_de_nombre("tab"@) == Some(15u32),
        nombre_de_codigo(15u32) == Some("tab"@),
        // KEY_ENTER
        codigo_de_nombre("intro"@) == Some(28u32),
        nombre_de_codigo(28u32) == Some("intro"@),
        // KEY_SPACE
        codigo_de_nombre("espacio"@) == Some(57u32),
        nombre_de_codigo(57u32) == Some("espacio"@),
        // KEY_CAPSLOCK
        codigo_de_nombre("bloqmayus"@) == Some(58u32),
        nombre_de_codigo(58u32) == Some("bloqmayus"@),
        // KEY_SYSRQ
        codigo_de_nombre("impr"@) == Some(99u32),
        nombre_de_codigo(99u32) == Some("impr"@),
        // KEY_HOME
        codigo_de_nombre("inicio"@) == Some(102u32),
        nombre_de_codigo(102u32) == Some("inicio"@),
        // KEY_UP
        codigo_de_nombre("arriba"@) == Some(103u32),
        nombre_de_codigo(103u32) == Some("arriba"@),
        // KEY_PAGEUP
        codigo_de_nombre("repag"@) == Some(104u32),
        nombre_de_codigo(104u32) == Some("repag"@),
        // KEY_LEFT
        codigo_de_nombre("izquierda"@) == Some(105u32),
        nombre_de_codigo(105u32) == Some("izquierda"@),
        // KEY_RIGHT
        codigo_de_nombre("derecha"@) == Some(106u32),
        nombre_de_codigo(106u32) == Some("derecha"@),
        // KEY_END
        codigo_de_nombre("fin"@) == Some(107u32),
        nombre_de_codigo(107u32) == Some("fin"@),
        // KEY_DOWN
        codigo_de_nombre("abajo"@) == Some(108u32),
        nombre_de_codigo(108u32) == Some("abajo"@),
        // KEY_PAGEDOWN
        codigo_de_nombre("avpag"@) == Some(109u32),
        nombre_de_codigo(109u32) == Some("avpag"@),
        // KEY_INSERT
        codigo_de_nombre("insert"@) == Some(110u32),
        nombre_de_codigo(110u32) == Some("insert"@),
        // KEY_DELETE
        codigo_de_nombre("supr"@) == Some(111u32),
        nombre_de_codigo(111u32) == Some("supr"@),
        // KEY_MUTE
        codigo_de_nombre("silencio"@) == Some(113u32),
        nombre_de_codigo(113u32) == Some("silencio"@),
        // KEY_VOLUMEDOWN
        codigo_de_nombre("bajar_volumen"@) == Some(114u32),
        nombre_de_codigo(114u32) == Some("bajar_volumen"@),
        // KEY_VOLUMEUP
        codigo_de_nombre("subir_volumen"@) == Some(115u32),
        nombre_de_codigo(115u32) == Some("subir_volumen"@),
        // KEY_COMPOSE
        codigo_de_nombre("menu"@) == Some(127u32),
        nombre_de_codigo(127u32) == Some("menu"@),
        // KEY_NEXTSONG
        codigo_de_nombre("siguiente"@) == Some(163u32),
        nombre_de_codigo(163u32) == Some("siguiente"@),
        // KEY_PLAYPAUSE
        codigo_de_nombre("reproducir"@) == Some(164u32),
        nombre_de_codigo(164u32) == Some("reproducir"@),
        // KEY_PREVIOUSSONG
        codigo_de_nombre("anterior"@) == Some(165u32),
        nombre_de_codigo(165u32) == Some("anterior"@),
        forall|s: Seq<char>| #[trigger] codigo_de_nombre(s) is Some ==> nombre_de_codigo(
            codigo_de_nombre(s)->0,
        ) == Some(s),
{
    lema_nombres_0();
    lema_nombres_1();
    lema_nombres_2();
    lema_nombres_3();
    lema_tabla_bien_hecha();
    assert forall|s: Seq<char>| #[trigger] codigo_de_nombre(s) is Some implies nombre_de_codigo(
        codigo_de_nombre(s)->0,
    ) == Some(s) by {
        lema_codigo_en_inverso(tabla(), s);
    }
}

/// `copilot` y `nada` no son nombres de la tabla.
pub proof fn lema_palabras_propias()
    ensures
        codigo_de_nombre(seq!['c', 'o', 'p', 'i', 'l', 'o', 't']) is None,
        codigo_de_nombre(seq!['n', 'a', 'd', 'a']) is None,
{
    reveal_with_fuel(codigo_en, 33);
}

/// La tabla, para recorrerla.
fn tabla_exec() -> (r: Vec<(Vec<char>, u32)>)
    ensures
        r@.len() == tabla().len(),
        forall|i: int| 0 <= i < r@.len() ==> #[trigger] r@[i].0@ == tabla()[i].0 && r@[i].1 == tabla()[i].1,
{
    let r: Vec<(Vec<char>, u32)> = vec![
        (vec!['c', 't', 'r', 'l'], 29u32),
        (vec!['c', 't', 'r', 'l', '_', 'd', 'e', 'r'], 97u32),
        (vec!['s', 'h', 'i', 'f', 't'], 42u32),
        (vec!['s', 'h', 'i', 'f', 't', '_', 'd', 'e', 'r'], 54u32),
        (vec!['a', 'l', 't'], 56u32),
        (vec!['a', 'l', 't', 'g', 'r'], 100u32),
        (vec!['m', 'e', 't', 'a'], 125u32),
        (vec!['m', 'e', 't', 'a', '_', 'd', 'e', 'r'], 126u32),
        (vec!['e', 's', 'c'], 1u32),
        (vec!['r', 'e', 't', 'r', 'o', 'c', 'e', 's', 'o'], 14u32),
        (vec!['t', 'a', 'b'], 15u32),
        (vec!['i', 'n', 't', 'r', 'o'], 28u32),
        (vec!['e', 's', 'p', 'a', 'c', 'i', 'o'], 57u32),
        (vec!['b', 'l', 'o', 'q', 'm', 'a', 'y', 'u', 's'], 58u32),
        (vec!['i', 'm', 'p', 'r'], 99u32),
        (vec!['i', 'n', 'i', 'c', 'i', 'o'], 102u32),
        (vec!['a', 'r', 'r', 'i', 'b', 'a'], 103u32),
        (vec!['r', 'e', 'p', 'a', 'g'], 104u32),
        (vec!['i', 'z', 'q', 'u', 'i', 'e', 'r', 'd', 'a'], 105u32),
        (vec!['d', 'e', 'r', 'e', 'c', 'h', 'a'], 106u32),
        (vec!['f', 'i', 'n'], 107u32),
        (vec!['a', 'b', 'a', 'j', 'o'], 108u32),
        (vec!['a', 'v', 'p', 'a', 'g'], 109u32),
        (vec!['i', 'n', 's', 'e', 'r', 't'], 110u32),
        (vec!['s', 'u', 'p', 'r'], 111u32),
        (vec!['s', 'i', 'l', 'e', 'n', 'c', 'i', 'o'], 113u32),
        (vec!['b', 'a', 'j', 'a', 'r', '_', 'v', 'o', 'l', 'u', 'm', 'e', 'n'], 114u32),
        (vec!['s', 'u', 'b', 'i', 'r', '_', 'v', 'o', 'l', 'u', 'm', 'e', 'n'], 115u32),
        (vec!['m', 'e', 'n', 'u'], 127u32),
        (vec!['s', 'i', 'g', 'u', 'i', 'e', 'n', 't', 'e'], 163u32),
        (vec!['r', 'e', 'p', 'r', 'o', 'd', 'u', 'c', 'i', 'r'], 164u32),
        (vec!['a', 'n', 't', 'e', 'r', 'i', 'o', 'r'], 165u32),
    ];
    r
}

fn iguales(a: &[char], b: &[char]) -> (r: bool)
    ensures
        r == (a@ == b@),
{
    if a.len() != b.len() {
        return false;
    }
    let mut i: usize = 0;
    while i < a.len()
        invariant
            i <= a@.len(),
            a@.len() == b@.len(),
            forall|j: int| 0 <= j < i ==> a@[j] == b@[j],
        decreases a@.len() - i,
    {
        if a[i] != b[i] {
            return false;
        }
        i = i + 1;
    }
    assert(a@ =~= b@);
    true
}

/// La tecla que tiene este nombre en la tabla.
pub fn codigo_por_nombre(s: &[char]) -> (r: Option<u32>)
    ensures
        r == codigo_de_nombre(s@),
{
    let t = tabla_exec();
    let ghost tt = tabla();
    let mut i: usize = 0;
    assert(tt.skip(0) =~= tt);
    while i < t.len()
        invariant
            i <= t@.len(),
            t@.len() == tt.len(),
            tt == tabla(),
            forall|k: int| 0 <= k < t@.len() ==> (#[trigger] t@[k]).0@ == tt[k].0 && t@[k].1 == tt[k].1,
            codigo_en(tt, s@) == codigo_en(tt.skip(i as int), s@),
        decreases t@.len() - i,
    {
        assert(tt.skip(i as int)[0] == tt[i as int]);
        assert(tt.skip(i as int).drop_first() =~= tt.skip(i + 1));
        if iguales(t[i].0.as_slice(), s) {
            return Some(t[i].1);
        }
        i = i + 1;
    }
    assert(tt.skip(i as int) =~= Seq::<(Seq<char>, u32)>::empty());
    None
}

/// El nombre de una tecla, si la tabla le da uno.
pub fn nombre_por_codigo(c: u32) -> (r: Option<Vec<char>>)
    ensures
        match r {
            Some(v) => nombre_de_codigo(c) == Some(v@),
            None => nombre_de_codigo(c) is None,
        },
{
    let t = tabla_exec();
    let ghost tt = tabla();
    let mut i: usize = 0;
    assert(tt.skip(0) =~= tt);
    while i < t.len()
        invariant
            i <= t@.len(),
            t@.len() == tt.len(),
            tt == tabla(),
            forall|k: int| 0 <= k < t@.len() ==> (#[trigger] t@[k]).0@ == tt[k].0 && t@[k].1 == tt[k].1,
            nombre_en(tt, c) == nombre_en(tt.skip(i as int), c),
        decreases t@.len() - i,
    {
        assert(tt.skip(i as int)[0] == tt[i as int]);
        assert(tt.skip(i as int).drop_first() =~= tt.skip(i + 1));
        if t[i].1 == c {
            let n = crate::texto::copia(t[i].0.as_slice(), 0, t[i].0.len());
            assert(n@ =~= tt[i as int].0);
            return Some(n);
        }
        i = i + 1;
    }
    assert(tt.skip(i as int) =~= Seq::<(Seq<char>, u32)>::empty());
    None
}

} // verus!
