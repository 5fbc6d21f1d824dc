//! Lo que pone cada tecla del dibujo en cada nivel.
//!
//! xkb compila la distribución con las mismas reglas que usa la sesión y dice
//! qué carácter da cada tecla sin nada, con Mayús y con AltGr. Aquí se decide
//! qué se dibuja con lo que devuelve: las teclas del dibujo, cómo se lee el
//! nombre de la distribución, qué máscara tiene cada modificador y qué leyenda
//! lleva cada tecla en cada nivel.
use vstd::prelude::*;

use crate::texto::{cadena, caracteres, copia, primera_posicion};

verus! {

/// `count` números seguidos desde `desde`.
pub open spec fn seguidos(desde: u32, count: nat) -> Seq<u32> {
    Seq::new(count, |i: int| (desde + i) as u32)
}

/// Las teclas de carácter del dibujo, en evdev: la 41 (`º`), las filas del 1,
/// la Q, la A y la Z, la 43 (junto al Intro) y la 86 (`<`, solo en ISO).
pub open spec fn teclas_del_dibujo() -> Seq<u32> {
    seq![41u32] + seguidos(2, 12) + seguidos(16, 12) + seguidos(30, 11) + seq![43u32, 86u32]
        + seguidos(44, 10)
}

fn anadir_seguidos(v: &mut Vec<u32>, desde: u32, hasta: u32)
    requires
        desde <= hasta < 0x1000,
    ensures
        final(v)@ == old(v)@ + seguidos(desde, (hasta - desde + 1) as nat),
{
    let mut c = desde;
    while c <= hasta
        invariant
            desde <= c <= hasta + 1,
            hasta < 0x1000,
            v@ =~= old(v)@ + seguidos(desde, (c - desde) as nat),
        decreases hasta + 1 - c,
    {
        v.push(c);
        c = c + 1;
    }
}

/// Las teclas del dibujo, en el orden en que se recorren.
pub fn teclas() -> (r: Vec<u32>)
    ensures
        r@ == teclas_del_dibujo(),
{
    let mut r: Vec<u32> = Vec::new();
    r.push(41);
    anadir_seguidos(&mut r, 2, 13);
    anadir_seguidos(&mut r, 16, 27);
    anadir_seguidos(&mut r, 30, 40);
    r.push(43);
    r.push(86);
    anadir_seguidos(&mut r, 44, 53);
    assert(r@ =~= teclas_del_dibujo());
    r
}

/// `s` sin los `)` del final (`str::trim_end_matches(')')`).
pub open spec fn sin_cierres_al_final(s: Seq<char>) -> Seq<char>
    decreases s.len(),
{
    if s.len() > 0 && s.last() == ')' {
        sin_cierres_al_final(s.drop_last())
    } else {
        s
    }
}

/// La disposición y la variante de un nombre de xkb: `es` es `("es", "")` y
/// `es(cat)` es `("es", "cat")`.
pub open spec fn partes_de_distribucion(d: Seq<char>) -> (Seq<char>, Seq<char>) {
    match primera_posicion(d, '(') {
        Some(i) => (d.take(i), sin_cierres_al_final(d.skip(i + 1))),
        None => (d, seq![]),
    }
}

proof fn lema_cierres_resto(s: Seq<char>, j: int)
    requires
        0 <= j <= s.len(),
        forall|k: int| j <= k < s.len() ==> #[trigger] s[k] == ')',
    ensures
        sin_cierres_al_final(s) == sin_cierres_al_final(s.subrange(0, j)),
    decreases s.len() - j,
{
    if j < s.len() {
        lema_cierres_resto(s, j + 1);
        assert(s.subrange(0, j + 1).drop_last() =~= s.subrange(0, j));
    } else {
        assert(s.subrange(0, s.len() as int) =~= s);
    }
}

/// Separa la disposición y la variante de un nombre de xkb.
pub fn separar_distribucion(distribucion: &str) -> (r: (String, String))
    ensures
        (r.0@, r.1@) == partes_de_distribucion(distribucion@),
{
    let d = caracteres(distribucion);
    let n = d.len();
    let mut i: usize = 0;
    while i < n && d[i] != '('
        invariant
            i <= n,
            n == d@.len(),
            forall|k: int| 0 <= k < i ==> d@[k] != '(',
        decreases n - i,
    {
        i = i + 1;
    }
    if i == n {
        assert(!exists|k: int| crate::texto::es_primera(d@, '(', k));
        return (cadena(&d), cadena(&Vec::<char>::new()));
    }
    proof {
        assert(crate::texto::es_primera(d@, '(', i as int));
        crate::texto::lema_primera_posicion(d@, '(', i as int);
    }
    let disposicion = copia(&d, 0, i);
    let resto = copia(&d, i + 1, n);
    let mut j: usize = resto.len();
    while j > 0 && resto[j - 1] == ')'
        invariant
            j <= resto@.len(),
            forall|k: int| j <= k < resto@.len() ==> #[trigger] resto@[k] == ')',
        decreases j,
    {
        j = j - 1;
    }
    proof {
        lema_cierres_resto(resto@, j as int);
        assert(resto@ =~= d@.skip(i + 1));
        assert(disposicion@ =~= d@.take(i as int));
    }
    let variante = copia(&resto, 0, j);
    (cadena(&disposicion), cadena(&variante))
}

/// `XKB_MOD_INVALID`: el keymap no tiene ese modificador.
pub const MOD_INVALID: u32 = 0xffff_ffff;

/// La máscara de un modificador por su índice. Si el keymap no lo tiene, no
/// se aplica: desplazar por `MOD_INVALID` desbordaría.
pub fn mascara_de_modificador(indice: u32) -> (r: u32)
    requires
        indice < 32 || indice == MOD_INVALID,
    ensures
        indice == MOD_INVALID ==> r == 0,
        indice < 32 ==> r == 1u32 << indice,
{
    if indice == MOD_INVALID {
        0
    } else {
        1u32 << indice
    }
}

/// El acento que pone una tecla muerta, por el nombre de su keysym.
pub open spec fn acento_de_muerta(nombre: Seq<char>) -> Option<char> {
    if nombre == seq!['d', 'e', 'a', 'd', '_', 'g', 'r', 'a', 'v', 'e'] {
        Some('`')
    } else if nombre == seq!['d', 'e', 'a', 'd', '_', 'a', 'c', 'u', 't', 'e'] {
        Some('´')
    } else if nombre == seq!['d', 'e', 'a', 'd', '_', 'c', 'i', 'r', 'c', 'u', 'm', 'f', 'l', 'e', 'x'] {
        Some('^')
    } else if nombre == seq!['d', 'e', 'a', 'd', '_', 't', 'i', 'l', 'd', 'e'] {
        Some('~')
    } else if nombre == seq!['d', 'e', 'a', 'd', '_', 'd', 'i', 'a', 'e', 'r', 'e', 's', 'i', 's'] {
        Some('¨')
    } else if nombre == seq!['d', 'e', 'a', 'd', '_', 'c', 'e', 'd', 'i', 'l', 'l', 'a'] {
        Some('¸')
    } else if nombre == seq!['d', 'e', 'a', 'd', '_', 'a', 'b', 'o', 'v', 'e', 'r', 'i', 'n', 'g'] {
        Some('°')
    } else if nombre == seq!['d', 'e', 'a', 'd', '_', 'c', 'a', 'r', 'o', 'n'] {
        Some('ˇ')
    } else if nombre == seq!['d', 'e', 'a', 'd', '_', 'b', 'r', 'e', 'v', 'e'] {
        Some('˘')
    } else if nombre == seq!['d', 'e', 'a', 'd', '_', 'o', 'g', 'o', 'n', 'e', 'k'] {
        Some('˛')
    } else if nombre == seq!['d', 'e', 'a', 'd', '_', 'd', 'o', 'u', 'b', 'l', 'e', 'a', 'c', 'u', 't', 'e'] {
        Some('˝')
    } else if nombre == seq!['d', 'e', 'a', 'd', '_', 'a', 'b', 'o', 'v', 'e', 'd', 'o', 't'] {
        Some('˙')
    } else if nombre == seq!['d', 'e', 'a', 'd', '_', 'm', 'a', 'c', 'r', 'o', 'n'] {
        Some('¯')
    } else {
        None
    }
}

/// El acento que pone una tecla muerta, por el nombre de su keysym.
pub fn acento(nombre: &[char]) -> (r: Option<char>)
    ensures
        r == acento_de_muerta(nombre@),
{
    if nombre.len() == 10 && nombre[0] == 'd' && nombre[1] == 'e' && nombre[2] == 'a' && nombre[3] == 'd' && nombre[4] == '_' && nombre[5] == 'g' && nombre[6] == 'r' && nombre[7] == 'a' && nombre[8] == 'v' && nombre[9] == 'e' {
        assert(nombre@ =~= seq!['d', 'e', 'a', 'd', '_', 'g', 'r', 'a', 'v', 'e']);
        return Some('`');
    }
    if nombre.len() == 10 && nombre[0] == 'd' && nombre[1] == 'e' && nombre[2] == 'a' && nombre[3] == 'd' && nombre[4] == '_' && nombre[5] == 'a' && nombre[6] == 'c' && nombre[7] == 'u' && nombre[8] == 't' && nombre[9] == 'e' {
        assert(nombre@ =~= seq!['d', 'e', 'a', 'd', '_', 'a', 'c', 'u', 't', 'e']);
        return Some('´');
    }
    if nombre.len() == 15 && nombre[0] == 'd' && nombre[1] == 'e' && nombre[2] == 'a' && nombre[3] == 'd' && nombre[4] == '_' && nombre[5] == 'c' && nombre[6] == 'i' && nombre[7] == 'r' && nombre[8] == 'c' && nombre[9] == 'u' && nombre[10] == 'm' && nombre[11] == 'f' && nombre[12] == 'l' && nombre[13] == 'e' && nombre[14] == 'x' {
        assert(nombre@ =~= seq!['d', 'e', 'a', 'd', '_', 'c', 'i', 'r', 'c', 'u', 'm', 'f', 'l', 'e', 'x']);
        return Some('^');
    }
    if nombre.len() == 10 && nombre[0] == 'd' && nombre[1] == 'e' && nombre[2] == 'a' && nombre[3] == 'd' && nombre[4] == '_' && nombre[5] == 't' && nombre[6] == 'i' && nombre[7] == 'l' && nombre[8] == 'd' && nombre[9] == 'e' {
        assert(nombre@ =~= seq!['d', 'e', 'a', 'd', '_', 't', 'i', 'l', 'd', 'e']);
        return Some('~');
    }
    if nombre.len() == 14 && nombre[0] == 'd' && nombre[1] == 'e' && nombre[2] == 'a' && nombre[3] == 'd' && nombre[4] == '_' && nombre[5] == 'd' && nombre[6] == 'i' && nombre[7] == 'a' && nombre[8] == 'e' && nombre[9] == 'r' && nombre[10] == 'e' && nombre[11] == 's' && nombre[12] == 'i' && nombre[13] == 's' {
        assert(nombre@ =~= seq!['d', 'e', 'a', 'd', '_', 'd', 'i', 'a', 'e', 'r', 'e', 's', 'i', 's']);
        return Some('¨');
    }
    if nombre.len() == 12 && nombre[0] == 'd' && nombre[1] == 'e' && nombre[2] == 'a' && nombre[3] == 'd' && nombre[4] == '_' && nombre[5] == 'c' && nombre[6] == 'e' && nombre[7] == 'd' && nombre[8] == 'i' && nombre[9] == 'l' && nombre[10] == 'l' && nombre[11] == 'a' {
        assert(nombre@ =~= seq!['d', 'e', 'a', 'd', '_', 'c', 'e', 'd', 'i', 'l', 'l', 'a']);
        return Some('¸');
    }
    if nombre.len() == 14 && nombre[0] == 'd' && nombre[1] == 'e' && nombre[2] == 'a' && nombre[3] == 'd' && nombre[4] == '_' && nombre[5] == 'a' && nombre[6] == 'b' && nombre[7] == 'o' && nombre[8] == 'v' && nombre[9] == 'e' && nombre[10] == 'r' && nombre[11] == 'i' && nombre[12] == 'n' && nombre[13] == 'g' {
        assert(nombre@ =~= seq!['d', 'e', 'a', 'd', '_', 'a', 'b', 'o', 'v', 'e', 'r', 'i', 'n', 'g']);
        return Some('°');
    }
    if nombre.len() == 10 && nombre[0] == 'd' && nombre[1] == 'e' && nombre[2] == 'a' && nombre[3] == 'd' && nombre[4] == '_' && nombre[5] == 'c' && nombre[6] == 'a' && nombre[7] == 'r' && nombre[8] == 'o' && nombre[9] == 'n' {
        assert(nombre@ =~= seq!['d', 'e', 'a', 'd', '_', 'c', 'a', 'r', 'o', 'n']);
        return Some('ˇ');
    }
    if nombre.len() == 10 && nombre[0] == 'd' && nombre[1] == 'e' && nombre[2] == 'a' && nombre[3] == 'd' && nombre[4] == '_' && nombre[5] == 'b' && nombre[6] == 'r' && nombre[7] == 'e' && nombre[8] == 'v' && nombre[9] == 'e' {
        assert(nombre@ =~= seq!['d', 'e', 'a', 'd', '_', 'b', 'r', 'e', 'v', 'e']);
        return Some('˘');
    }
    if nombre.len() == 11 && nombre[0] == 'd' && nombre[1] == 'e' && nombre[2] == 'a' && nombre[3] == 'd' && nombre[4] == '_' && nombre[5] == 'o' && nombre[6] == 'g' && nombre[7] == 'o' && nombre[8] == 'n' && nombre[9] == 'e' && nombre[10] == 'k' {
        assert(nombre@ =~= seq!['d', 'e', 'a', 'd', '_', 'o', 'g', 'o', 'n', 'e', 'k']);
        return Some('˛');
    }
    if nombre.len() == 16 && nombre[0] == 'd' && nombre[1] == 'e' && nombre[2] == 'a' && nombre[3] == 'd' && nombre[4] == '_' && nombre[5] == 'd' && nombre[6] == 'o' && nombre[7] == 'u' && nombre[8] == 'b' && nombre[9] == 'l' && nombre[10] == 'e' && nombre[11] == 'a' && nombre[12] == 'c' && nombre[13] == 'u' && nombre[14] == 't' && nombre[15] == 'e' {
        assert(nombre@ =~= seq!['d', 'e', 'a', 'd', '_', 'd', 'o', 'u', 'b', 'l', 'e', 'a', 'c', 'u', 't', 'e']);
        return Some('˝');
    }
    if nombre.len() == 13 && nombre[0] == 'd' && nombre[1] == 'e' && nombre[2] == 'a' && nombre[3] == 'd' && nombre[4] == '_' && nombre[5] == 'a' && nombre[6] == 'b' && nombre[7] == 'o' && nombre[8] == 'v' && nombre[9] == 'e' && nombre[10] == 'd' && nombre[11] == 'o' && nombre[12] == 't' {
        assert(nombre@ =~= seq!['d', 'e', 'a', 'd', '_', 'a', 'b', 'o', 'v', 'e', 'd', 'o', 't']);
        return Some('˙');
    }
    if nombre.len() == 11 && nombre[0] == 'd' && nombre[1] == 'e' && nombre[2] == 'a' && nombre[3] == 'd' && nombre[4] == '_' && nombre[5] == 'm' && nombre[6] == 'a' && nombre[7] == 'c' && nombre[8] == 'r' && nombre[9] == 'o' && nombre[10] == 'n' {
        assert(nombre@ =~= seq!['d', 'e', 'a', 'd', '_', 'm', 'a', 'c', 'r', 'o', 'n']);
        return Some('¯');
    }
    None
}

/// Los caracteres de control (`char::is_control`).
pub open spec fn es_control(c: char) -> bool {
    c <= '\u{1f}' || ('\u{7f}' <= c && c <= '\u{9f}')
}

/// Lo que se dibuja en una tecla: el texto que da, si tiene y no es de
/// control; si no, el acento de la tecla muerta por su keysym, o nada.
pub open spec fn leyenda_de(texto: Seq<char>, nombre_keysym: Seq<char>) -> Seq<char> {
    if texto.len() > 0 && forall|i: int| 0 <= i < texto.len() ==> !es_control(#[trigger] texto[i]) {
        texto
    } else {
        match acento_de_muerta(nombre_keysym) {
            Some(a) => seq![a],
            None => seq![],
        }
    }
}

/// Lo que se dibuja en una tecla, con el texto y el nombre de keysym que da xkb.
pub fn leyenda(texto: &str, nombre_keysym: &str) -> (r: String)
    ensures
        r@ == leyenda_de(texto@, nombre_keysym@),
{
    let t = caracteres(texto);
    let mut limpio = t.len() > 0;
    let mut i: usize = 0;
    while i < t.len()
        invariant
            i <= t@.len(),
            limpio == (t@.len() > 0 && forall|k: int| 0 <= k < i ==> !es_control(#[trigger] t@[k])),
        decreases t@.len() - i,
    {
        let c = t[i];
        if c <= '\u{1f}' || ('\u{7f}' <= c && c <= '\u{9f}') {
            limpio = false;
        }
        i = i + 1;
    }
    if limpio {
        return cadena(&t);
    }
    let n = caracteres(nombre_keysym);
    match acento(&n) {
        Some(a) => {
            let mut v: Vec<char> = Vec::new();
            v.push(a);
            assert(v@ =~= seq![a]);
            cadena(&v)
        },
        None => {
            let v: Vec<char> = Vec::new();
            assert(v@ =~= Seq::<char>::empty());
            cadena(&v)
        },
    }
}

/// Una tecla sin nivel de AltGr devuelve con Mod5 lo mismo que sin nada: eso
/// no es una leyenda, es que no tiene.
pub fn leyenda_altgr(normal: &String, altgr: String) -> (r: String)
    ensures
        r@ == (if altgr@ == normal@ {
            Seq::<char>::empty()
        } else {
            altgr@
        }),
{
    if altgr == *normal {
        String::new()
    } else {
        altgr
    }
}

/// Ley: cada tecla muerta se dibuja con el acento que pone, sacado del nombre
/// de su keysym, cuando xkb no le da texto.
pub proof fn ley_teclas_muertas()
    ensures
        acento_de_muerta("dead_grave"@) == Some('`'),
        leyenda_de(Seq::<char>::empty(), "dead_grave"@) == seq!['`'],
        acento_de_muerta("dead_acute"@) == Some('´'),
        leyenda_de(Seq::<char>::empty(), "dead_acute"@) == seq!['´'],
        acento_de_muerta("dead_circumflex"@) == Some('^'),
        leyenda_de(Seq::<char>::empty(), "dead_circumflex"@) == seq!['^'],
        acento_de_muerta("dead_tilde"@) == Some('~'),
        leyenda_de(Seq::<char>::empty(), "dead_tilde"@) == seq!['~'],
        acento_de_muerta("dead_diaeresis"@) == Some('¨'),
        leyenda_de(Seq::<char>::empty(), "dead_diaeresis"@) == seq!['¨'],
        acento_de_muerta("dead_cedilla"@) == Some('¸'),
        leyenda_de(Seq::<char>::empty(), "dead_cedilla"@) == seq!['¸'],
        acento_de_muerta("dead_abovering"@) == Some('°'),
        leyenda_de(Seq::<char>::empty(), "dead_abovering"@) == seq!['°'],
        acento_de_muerta("dead_caron"@) == Some('ˇ'),
        leyenda_de(Seq::<char>::empty(), "dead_caron"@) == seq!['ˇ'],
        acento_de_muerta("dead_breve"@) == Some('˘'),
        leyenda_de(Seq::<char>::empty(), "dead_breve"@) == seq!['˘'],
        acento_de_muerta("dead_ogonek"@) == Some('˛'),
        leyenda_de(Seq::<char>::empty(), "dead_ogonek"@) == seq!['˛'],
        acento_de_muerta("dead_doubleacute"@) == Some('˝'),
        leyenda_de(Seq::<char>::empty(), "dead_doubleacute"@) == seq!['˝'],
        acento_de_muerta("dead_abovedot"@) == Some('˙'),
        leyenda_de(Seq::<char>::empty(), "dead_abovedot"@) == seq!['˙'],
        acento_de_muerta("dead_macron"@) == Some('¯'),
        leyenda_de(Seq::<char>::empty(), "dead_macron"@) == seq!['¯'],
{
    reveal_strlit("dead_grave");
    assert("dead_grave"@ =~= seq!['d', 'e', 'a', 'd', '_', 'g', 'r', 'a', 'v', 'e']);
    reveal_strlit("dead_acute");
    assert("dead_acute"@ =~= seq!['d', 'e', 'a', 'd', '_', 'a', 'c', 'u', 't', 'e']);
    reveal_strlit("dead_circumflex");
    assert("dead_circumflex"@ =~= seq!['d', 'e', 'a', 'd', '_', 'c', 'i', 'r', 'c', 'u', 'm', 'f', 'l', 'e', 'x']);
    reveal_strlit("dead_tilde");
    assert("dead_tilde"@ =~= seq!['d', 'e', 'a', 'd', '_', 't', 'i', 'l', 'd', 'e']);
    reveal_strlit("dead_diaeresis");
    assert("dead_diaeresis"@ =~= seq!['d', 'e', 'a', 'd', '_', 'd', 'i', 'a', 'e', 'r', 'e', 's', 'i', 's']);
    reveal_strlit("dead_cedilla");
    assert("dead_cedilla"@ =~= seq!['d', 'e', 'a', 'd', '_', 'c', 'e', 'd', 'i', 'l', 'l', 'a']);
    reveal_strlit("dead_abovering");
    assert("dead_abovering"@ =~= seq!['d', 'e', 'a', 'd', '_', 'a', 'b', 'o', 'v', 'e', 'r', 'i', 'n', 'g']);
    reveal_strlit("dead_caron");
    assert("dead_caron"@ =~= seq!['d', 'e', 'a', 'd', '_', 'c', 'a', 'r', 'o', 'n']);
    reveal_strlit("dead_breve");
    assert("dead_breve"@ =~= seq!['d', 'e', 'a', 'd', '_', 'b', 'r', 'e', 'v', 'e']);
    reveal_strlit("dead_ogonek");
    assert("dead_ogonek"@ =~= seq!['d', 'e', 'a', 'd', '_', 'o', 'g', 'o', 'n', 'e', 'k']);
    reveal_strlit("dead_doubleacute");
    assert("dead_doubleacute"@ =~= seq!['d', 'e', 'a', 'd', '_', 'd', 'o', 'u', 'b', 'l', 'e', 'a', 'c', 'u', 't', 'e']);
    reveal_strlit("dead_abovedot");
    assert("dead_abovedot"@ =~= seq!['d', 'e', 'a', 'd', '_', 'a', 'b', 'o', 'v', 'e', 'd', 'o', 't']);
    reveal_strlit("dead_macron");
    assert("dead_macron"@ =~= seq!['d', 'e', 'a', 'd', '_', 'm', 'a', 'c', 'r', 'o', 'n']);
}

/// Ley: lo que xkb da para una tecla se dibuja tal cual si no está vacío y
/// ninguno de sus caracteres es de control (`char::is_control`: U+0000 a
/// U+001F y U+007F a U+009F), sea ASCII o no (`€`, `ñ`, `º`); si está vacío o
/// tiene alguno de control, se dibuja el acento de la tecla muerta, o nada.
pub proof fn ley_leyenda(texto: Seq<char>, nombre: Seq<char>)
    ensures
        texto.len() > 0 && (forall|i: int|
            0 <= i < texto.len() ==> ('\u{20}' <= #[trigger] texto[i] && texto[i] < '\u{7f}') || '\u{a0}'
                <= texto[i]) ==> leyenda_de(texto, nombre) == texto,
        (texto.len() == 0 || exists|i: int|
            0 <= i < texto.len() && (#[trigger] texto[i] <= '\u{1f}' || ('\u{7f}' <= texto[i]
                && texto[i] <= '\u{9f}'))) ==> leyenda_de(texto, nombre) == match acento_de_muerta(
            nombre,
        ) {
            Some(a) => seq![a],
            None => Seq::<char>::empty(),
        },
{
}

} // verus!
