//! Texto como secuencia de caracteres: espacios, recortes, líneas y números
//! decimales, con el mismo significado que tienen en la biblioteca estándar.
use vstd::prelude::*;
use vstd::string::*;

verus! {

/// Los caracteres con la propiedad `White_Space` de Unicode: los que
/// `char::is_whitespace` reconoce y `str::trim` quita.
pub open spec fn es_espacio(c: char) -> bool {
    ||| ('\u{9}' <= c && c <= '\u{d}')
    ||| c == ' '
    ||| c == '\u{85}'
    ||| c == '\u{a0}'
    ||| c == '\u{1680}'
    ||| ('\u{2000}' <= c && c <= '\u{200a}')
    ||| c == '\u{2028}'
    ||| c == '\u{2029}'
    ||| c == '\u{202f}'
    ||| c == '\u{205f}'
    ||| c == '\u{3000}'
}

pub fn espacio(c: char) -> (r: bool)
    ensures
        r == es_espacio(c),
{
    ('\u{9}' <= c && c <= '\u{d}') || c == ' ' || c == '\u{85}' || c == '\u{a0}' || c
        == '\u{1680}' || ('\u{2000}' <= c && c <= '\u{200a}') || c == '\u{2028}' || c
        == '\u{2029}' || c == '\u{202f}' || c == '\u{205f}' || c == '\u{3000}'
}

/// `s` sin los espacios del principio.
pub open spec fn sin_espacios_al_inicio(s: Seq<char>) -> Seq<char>
    decreases s.len(),
{
    if s.len() > 0 && es_espacio(s[0]) {
        sin_espacios_al_inicio(s.drop_first())
    } else {
        s
    }
}

/// `s` sin los espacios del final.
pub open spec fn sin_espacios_al_final(s: Seq<char>) -> Seq<char>
    decreases s.len(),
{
    if s.len() > 0 && es_espacio(s.last()) {
        sin_espacios_al_final(s.drop_last())
    } else {
        s
    }
}

/// Lo que deja `str::trim`.
pub open spec fn recortar(s: Seq<char>) -> Seq<char> {
    sin_espacios_al_final(sin_espacios_al_inicio(s))
}

proof fn lema_inicio_resto(s: Seq<char>, i: int)
    requires
        0 <= i <= s.len(),
        forall|j: int| 0 <= j < i ==> es_espacio(#[trigger] s[j]),
    ensures
        sin_espacios_al_inicio(s) == sin_espacios_al_inicio(s.subrange(i, s.len() as int)),
    decreases i,
{
    if i > 0 {
        lema_inicio_resto(s, i - 1);
        let t = s.subrange(i - 1, s.len() as int);
        assert(t.drop_first() =~= s.subrange(i, s.len() as int));
    } else {
        assert(s.subrange(0, s.len() as int) =~= s);
    }
}

proof fn lema_final_resto(s: Seq<char>, j: int)
    requires
        0 <= j <= s.len(),
        forall|k: int| j <= k < s.len() ==> es_espacio(#[trigger] s[k]),
    ensures
        sin_espacios_al_final(s) == sin_espacios_al_final(s.subrange(0, j)),
    decreases s.len() - j,
{
    if j < s.len() {
        lema_final_resto(s, j + 1);
        let t = s.subrange(0, j + 1);
        assert(t.drop_last() =~= s.subrange(0, j));
    } else {
        assert(s.subrange(0, s.len() as int) =~= s);
    }
}

/// `str::trim` sobre caracteres.
pub fn recortado(s: &[char]) -> (r: Vec<char>)
    ensures
        r@ == recortar(s@),
{
    let n = s.len();
    let mut i: usize = 0;
    while i < n && espacio(s[i])
        invariant
            i <= n,
            n == s@.len(),
            forall|j: int| 0 <= j < i ==> es_espacio(#[trigger] s@[j]),
        decreases n - i,
    {
        i = i + 1;
    }
    proof {
        lema_inicio_resto(s@, i as int);
        let t = s@.subrange(i as int, n as int);
        if t.len() > 0 {
            assert(t[0] == s@[i as int]);
        }
    }
    let ghost t = s@.subrange(i as int, n as int);
    let mut j: usize = n;
    while j > i && espacio(s[j - 1])
        invariant
            i <= j <= n,
            n == s@.len(),
            t == s@.subrange(i as int, n as int),
            forall|k: int| j - i <= k < t.len() ==> es_espacio(#[trigger] t[k]),
        decreases j,
    {
        j = j - 1;
    }
    proof {
        lema_final_resto(t, (j - i) as int);
        let u = t.subrange(0, (j - i) as int);
        if u.len() > 0 {
            assert(u.last() == s@[j - 1]);
        }
    }
    let mut r: Vec<char> = Vec::new();
    let mut k: usize = i;
    while k < j
        invariant
            i <= k <= j <= n,
            n == s@.len(),
            r@ =~= s@.subrange(i as int, k as int),
        decreases j - k,
    {
        r.push(s[k]);
        k = k + 1;
    }
    assert(r@ =~= t.subrange(0, (j - i) as int));
    r
}

/// `i` es la primera posición de `c` en `s`.
pub open spec fn es_primera(s: Seq<char>, c: char, i: int) -> bool {
    &&& 0 <= i < s.len()
    &&& s[i] == c
    &&& forall|j: int| 0 <= j < i ==> s[j] != c
}

/// La primera posición de `c` en `s`, si aparece.
pub open spec fn primera_posicion(s: Seq<char>, c: char) -> Option<int> {
    if exists|i: int| es_primera(s, c, i) {
        Some(choose|i: int| es_primera(s, c, i))
    } else {
        None
    }
}

pub proof fn lema_primera_unica(s: Seq<char>, c: char, i: int, k: int)
    requires
        es_primera(s, c, i),
        es_primera(s, c, k),
    ensures
        i == k,
{
    if i < k {
        assert(s[i] != c);
    } else if k < i {
        assert(s[k] != c);
    }
}

/// Lo que dice `primera_posicion` de una posición concreta.
pub proof fn lema_primera_posicion(s: Seq<char>, c: char, i: int)
    requires
        es_primera(s, c, i),
    ensures
        primera_posicion(s, c) == Some(i),
{
    let k = choose|k: int| es_primera(s, c, k);
    lema_primera_unica(s, c, i, k);
}

pub proof fn lema_sin_posicion(s: Seq<char>, c: char)
    requires
        forall|j: int| 0 <= j < s.len() ==> s[j] != c,
    ensures
        primera_posicion(s, c) is None,
{
}

/// Desde `desde`, la primera posición de `c` en `s`.
pub fn buscar_caracter(s: &[char], c: char, desde: usize) -> (r: Option<usize>)
    requires
        desde <= s@.len(),
    ensures
        match r {
            Some(q) => desde <= q < s@.len() && primera_posicion(
                s@.subrange(desde as int, s@.len() as int),
                c,
            ) == Some(q - desde),
            None => primera_posicion(s@.subrange(desde as int, s@.len() as int), c) is None,
        },
{
    let ghost t = s@.subrange(desde as int, s@.len() as int);
    let mut i: usize = desde;
    while i < s.len()
        invariant
            desde <= i <= s@.len(),
            t == s@.subrange(desde as int, s@.len() as int),
            forall|j: int| 0 <= j < i - desde ==> t[j] != c,
        decreases s@.len() - i,
    {
        if s[i] == c {
            proof {
                assert(es_primera(t, c, i - desde));
                lema_primera_posicion(t, c, i - desde);
            }
            return Some(i);
        }
        i = i + 1;
    }
    proof {
        lema_sin_posicion(t, c);
    }
    None
}

/// `s` partido por los saltos de línea. Tras el último salto queda un trozo
/// más, vacío si el texto acaba en salto.
pub open spec fn lineas(s: Seq<char>) -> Seq<Seq<char>>
    decreases s.len(),
{
    if exists|i: int| es_primera(s, '\n', i) {
        let i = choose|i: int| es_primera(s, '\n', i);
        seq![s.take(i)] + lineas(s.skip(i + 1))
    } else {
        seq![s]
    }
}

/// Partir por un salto de línea sin saltos delante.
pub proof fn lema_lineas_partir(a: Seq<char>, b: Seq<char>)
    requires
        forall|j: int| 0 <= j < a.len() ==> a[j] != '\n',
    ensures
        lineas(a + seq!['\n'] + b) == seq![a] + lineas(b),
{
    let s = a + seq!['\n'] + b;
    assert(es_primera(s, '\n', a.len() as int));
    let i = choose|i: int| es_primera(s, '\n', i);
    lema_primera_unica(s, '\n', a.len() as int, i);
    assert(s.take(a.len() as int) =~= a);
    assert(s.skip(a.len() as int + 1) =~= b);
}

/// Las líneas de un texto, en caracteres.
pub fn partir_lineas(s: &[char]) -> (r: Vec<Vec<char>>)
    ensures
        r.deep_view() =~= lineas(s@),
{
    let mut r: Vec<Vec<char>> = Vec::new();
    let mut p: usize = 0;
    assert(s@.subrange(0, s@.len() as int) =~= s@);
    assert(r.deep_view() =~= Seq::<Seq<char>>::empty());
    let n = s.len();
    loop
        invariant
            n == s@.len(),
            p <= s@.len(),
            lineas(s@) =~= r.deep_view() + lineas(s@.subrange(p as int, s@.len() as int)),
        decreases s@.len() - p,
    {
        let ghost t = s@.subrange(p as int, s@.len() as int);
        match buscar_caracter(s, '\n', p) {
            Some(q) => {
                proof {
                    assert(exists|w: int| es_primera(t, '\n', w));
                    let w = choose|w: int| es_primera(t, '\n', w);
                    assert(es_primera(t, '\n', w));
                    assert(0 <= w < t.len());
                    assert(primera_posicion(t, '\n') == Some(w));
                }
                let mut linea: Vec<char> = Vec::new();
                let mut k: usize = p;
                while k < q
                    invariant
                        p <= k <= q < s@.len(),
                        linea@ =~= s@.subrange(p as int, k as int),
                    decreases q - k,
                {
                    linea.push(s[k]);
                    k = k + 1;
                }
                proof {
                    let i = (q - p) as int;
                    let w = choose|w: int| es_primera(t, '\n', w);
                    lema_primera_unica(t, '\n', i, w);
                    assert(t.take(i) =~= linea@);
                    assert(t.skip(i + 1) =~= s@.subrange(q + 1, s@.len() as int));
                    assert(lineas(t) =~= seq![linea@] + lineas(t.skip(i + 1)));
                }
                let ghost antes = r.deep_view();
                assert(linea.deep_view() =~= linea@);
                r.push(linea);
                assert(r.deep_view() =~= antes.push(linea@));
                p = q + 1;
            },
            None => {
                let mut linea: Vec<char> = Vec::new();
                let mut k: usize = p;
                while k < s.len()
                    invariant
                        p <= k <= s@.len(),
                        linea@ =~= s@.subrange(p as int, k as int),
                    decreases s@.len() - k,
                {
                    linea.push(s[k]);
                    k = k + 1;
                }
                proof {
                    assert(!exists|i: int| es_primera(t, '\n', i));
                    assert(linea@ =~= t);
                }
                let ghost antes = r.deep_view();
                assert(linea.deep_view() =~= linea@);
                r.push(linea);
                assert(r.deep_view() =~= antes.push(linea@));
                return r;
            },
        }
    }
}

pub open spec fn es_digito(c: char) -> bool {
    '0' <= c && c <= '9'
}

pub open spec fn solo_digitos(s: Seq<char>) -> bool {
    forall|i: int| 0 <= i < s.len() ==> es_digito(#[trigger] s[i])
}

/// El valor de una cifra.
pub open spec fn valor_cifra(c: char) -> int {
    c as int - '0' as int
}

/// El número que escriben unas cifras decimales.
pub open spec fn valor_decimal(s: Seq<char>) -> int
    decreases s.len(),
{
    if s.len() == 0 {
        0
    } else {
        valor_decimal(s.drop_last()) * 10 + valor_cifra(s.last())
    }
}

/// `str::parse::<u32>`: un `+` opcional delante de al menos una cifra, y un
/// valor que quepa en `u32`. Cualquier otro carácter, espacios incluidos, es
/// un error.
pub open spec fn numero_u32(s: Seq<char>) -> Option<u32> {
    let d = if s.len() > 0 && s[0] == '+' {
        s.drop_first()
    } else {
        s
    };
    if d.len() > 0 && solo_digitos(d) && valor_decimal(d) <= u32::MAX {
        Some(valor_decimal(d) as u32)
    } else {
        None
    }
}

/// La cifra de un número menor que diez.
pub open spec fn cifra(n: int) -> char {
    ('0' as int + n) as char
}

/// Un número escrito en decimal, sin ceros a la izquierda.
pub open spec fn decimal(n: nat) -> Seq<char>
    decreases n,
{
    if n < 10 {
        seq![cifra(n as int)]
    } else {
        decimal(n / 10).push(cifra((n % 10) as int))
    }
}

proof fn lema_valor_no_negativo(s: Seq<char>)
    requires
        solo_digitos(s),
    ensures
        valor_decimal(s) >= 0,
    decreases s.len(),
{
    if s.len() > 0 {
        assert(es_digito(s[s.len() - 1]));
        lema_valor_no_negativo(s.drop_last());
    }
}

/// Añadir cifras no hace menor el número.
proof fn lema_valor_prefijo(s: Seq<char>, k: int)
    requires
        solo_digitos(s),
        0 <= k <= s.len(),
    ensures
        valor_decimal(s.take(k)) <= valor_decimal(s),
    decreases s.len(),
{
    if k < s.len() {
        let t = s.drop_last();
        assert(es_digito(s[s.len() - 1]));
        lema_valor_prefijo(t, k);
        assert(t.take(k) =~= s.take(k));
        lema_valor_no_negativo(t);
    } else {
        assert(s.take(k) =~= s);
    }
}

/// `str::parse::<u32>` sobre caracteres.
pub fn leer_u32(s: &[char]) -> (r: Option<u32>)
    ensures
        r == numero_u32(s@),
{
    let n = s.len();
    let inicio: usize = if n > 0 && s[0] == '+' {
        1
    } else {
        0
    };
    let ghost d = s@.subrange(inicio as int, n as int);
    assert(d =~= (if s@.len() > 0 && s@[0] == '+' {
        s@.drop_first()
    } else {
        s@
    }));
    if inicio == n {
        return None;
    }
    let mut valor: u64 = 0;
    let mut i: usize = inicio;
    while i < n
        invariant
            inicio <= i <= n,
            n == s@.len(),
            d == s@.subrange(inicio as int, n as int),
            d == (if s@.len() > 0 && s@[0] == '+' {
                s@.drop_first()
            } else {
                s@
            }),
            solo_digitos(d.take(i - inicio)),
            valor == valor_decimal(d.take(i - inicio)),
            valor <= u32::MAX,
        decreases n - i,
    {
        let c = s[i];
        if !('0' <= c && c <= '9') {
            assert(d[i - inicio] == c);
            assert(!solo_digitos(d));
            return None;
        }
        let ghost antes = d.take(i - inicio);
        let cifra_actual = (c as u32 - '0' as u32) as u64;
        valor = valor * 10 + cifra_actual;
        i = i + 1;
        proof {
            let ahora = d.take(i - inicio);
            assert(ahora.drop_last() =~= antes);
            assert(ahora.last() == c);
            assert(solo_digitos(ahora));
            assert(valor == valor_decimal(ahora));
        }
        if valor > 0xffff_ffff {
            proof {
                if solo_digitos(d) {
                    lema_valor_prefijo(d, i - inicio);
                }
            }
            return None;
        }
    }
    assert(d.take(n - inicio) =~= d);
    Some(valor as u32)
}

proof fn lema_cifra(n: int)
    requires
        0 <= n < 10,
    ensures
        es_digito(cifra(n)),
        valor_cifra(cifra(n)) == n,
        cifra(n) != '+',
{
}

/// Lo escrito en decimal se lee como el mismo número.
pub proof fn lema_decimal(n: nat)
    ensures
        decimal(n).len() > 0,
        solo_digitos(decimal(n)),
        valor_decimal(decimal(n)) == n,
    decreases n,
{
    if n < 10 {
        lema_cifra(n as int);
        let s = decimal(n);
        assert(s.drop_last() =~= Seq::<char>::empty());
        assert(valor_decimal(s.drop_last()) == 0);
        assert(s.last() == cifra(n as int));
        assert(valor_decimal(s) == n);
    } else {
        lema_decimal(n / 10);
        lema_cifra((n % 10) as int);
        let s = decimal(n);
        assert(s.drop_last() =~= decimal(n / 10));
        assert(s.last() == cifra((n % 10) as int));
        assert(valor_decimal(s) == valor_decimal(decimal(n / 10)) * 10 + (n % 10));
        assert(n == (n / 10) * 10 + n % 10);
        assert forall|i: int| 0 <= i < s.len() implies es_digito(#[trigger] s[i]) by {
            if i < s.len() - 1 {
                assert(s[i] == decimal(n / 10)[i]);
            }
        }
    }
}

/// El número escrito en decimal se lee tal cual.
pub proof fn lema_leer_decimal(n: u32)
    ensures
        numero_u32(decimal(n as nat)) == Some(n),
{
    lema_decimal(n as nat);
    assert(es_digito(decimal(n as nat)[0]));
}

/// Añade a `salida` el número en decimal.
pub fn escribir_decimal(n: u32, salida: &mut Vec<char>)
    ensures
        final(salida)@ == old(salida)@ + decimal(n as nat),
    decreases n,
{
    if n >= 10 {
        escribir_decimal(n / 10, salida);
    }
    let c = ((n % 10) as u8 + 48u8) as char;
    assert(c == cifra((n % 10) as int));
    salida.push(c);
    proof {
        if n >= 10 {
            assert(decimal(n as nat) == decimal((n / 10) as nat).push(cifra((n % 10) as int)));
        }
    }
    assert(final(salida)@ =~= old(salida)@ + decimal(n as nat));
}

/// Recortar no cambia un texto sin espacios en los bordes.
pub proof fn lema_recortar_sin_bordes(s: Seq<char>)
    requires
        s.len() > 0,
        !es_espacio(s[0]),
        !es_espacio(s.last()),
    ensures
        recortar(s) == s,
{
}

/// Recortar quita un espacio añadido al final.
pub proof fn lema_recortar_espacio_final(s: Seq<char>)
    requires
        s.len() > 0,
        !es_espacio(s[0]),
        !es_espacio(s.last()),
    ensures
        recortar(s + seq![' ']) == s,
{
    let t = s + seq![' '];
    assert(t[0] == s[0]);
    assert(sin_espacios_al_inicio(t) == t);
    assert(t.drop_last() =~= s);
    assert(t.last() == ' ');
    assert(es_espacio(t.last()));
    assert(sin_espacios_al_final(t) == sin_espacios_al_final(s));
    assert(sin_espacios_al_final(s) == s);
}

/// Recortar quita un espacio añadido al principio.
pub proof fn lema_recortar_espacio_inicial(s: Seq<char>)
    requires
        s.len() > 0,
        !es_espacio(s[0]),
        !es_espacio(s.last()),
    ensures
        recortar(seq![' '] + s) == s,
{
    let t = seq![' '] + s;
    assert(t.drop_first() =~= s);
    assert(sin_espacios_al_inicio(t) == sin_espacios_al_inicio(s));
}

/// Recortar el texto vacío lo deja vacío.
pub proof fn lema_recortar_vacio()
    ensures
        recortar(Seq::<char>::empty()) == Seq::<char>::empty(),
{
}

/// Un texto sin saltos de línea es una sola línea.
pub proof fn lema_lineas_sin_salto(s: Seq<char>)
    requires
        forall|j: int| 0 <= j < s.len() ==> s[j] != '\n',
    ensures
        lineas(s) == seq![s],
{
}

/// Si hay algún salto de línea en `s`.
pub fn tiene_salto(s: &[char]) -> (r: bool)
    ensures
        r == s@.contains('\n'),
{
    let mut i: usize = 0;
    while i < s.len()
        invariant
            i <= s@.len(),
            forall|j: int| 0 <= j < i ==> s@[j] != '\n',
        decreases s@.len() - i,
    {
        if s[i] == '\n' {
            assert(s@[i as int] == '\n');
            return true;
        }
        i = i + 1;
    }
    false
}

/// Los caracteres de `s` entre `desde` y `hasta`.
pub fn copia(s: &[char], desde: usize, hasta: usize) -> (r: Vec<char>)
    requires
        desde <= hasta <= s@.len(),
    ensures
        r@ == s@.subrange(desde as int, hasta as int),
{
    let mut r: Vec<char> = Vec::new();
    let mut k: usize = desde;
    while k < hasta
        invariant
            desde <= k <= hasta <= s@.len(),
            r@ =~= s@.subrange(desde as int, k as int),
        decreases hasta - k,
    {
        r.push(s[k]);
        k = k + 1;
    }
    r
}

/// Añade a `a` los caracteres de `b`.
pub fn anadir(a: &mut Vec<char>, b: &[char])
    ensures
        final(a)@ == old(a)@ + b@,
{
    let mut k: usize = 0;
    while k < b.len()
        invariant
            k <= b@.len(),
            a@ =~= old(a)@ + b@.subrange(0, k as int),
        decreases b@.len() - k,
    {
        a.push(b[k]);
        k = k + 1;
    }
    assert(b@.subrange(0, b@.len() as int) =~= b@);
}

/// Un texto fijo, unos caracteres y otro texto fijo, seguidos.
pub fn entre(antes: &str, medio: &[char], despues: &str) -> (r: String)
    ensures
        r@ == antes@ + medio@ + despues@,
{
    let mut r = String::from_str(antes);
    let m = cadena(medio);
    r.append(m.as_str());
    r.append(despues);
    r
}

/// Los caracteres de un `&str`.
pub fn caracteres(s: &str) -> (r: Vec<char>)
    ensures
        r@ == s@,
{
    broadcast use vstd::string::group_string_axioms;

    let mut r: Vec<char> = Vec::new();
    for c in it: s.chars()
        invariant
            r@ == it.seq().take(it.index() as int),
    {
        r.push(c);
    }
    r
}

/// `String::push`, que vstd no especifica: según su documentación, añade el
/// carácter al final del `String`, y nada más cambia.
pub assume_specification[ String::push ](s: &mut String, ch: char)
    ensures
        final(s)@ == old(s)@.push(ch),
;

/// Un `String` con estos caracteres, en el mismo orden.
pub fn cadena(v: &[char]) -> (r: String)
    ensures
        r@ == v@,
{
    let mut r = String::new();
    let mut i: usize = 0;
    while i < v.len()
        invariant
            i <= v@.len(),
            r@ == v@.take(i as int),
        decreases v@.len() - i,
    {
        r.push(v[i]);
        i = i + 1;
        assert(r@ =~= v@.take(i as int));
    }
    assert(v@.take(v@.len() as int) =~= v@);
    r
}

} // verus!
