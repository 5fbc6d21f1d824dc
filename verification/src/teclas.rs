//! Remapeo de teclas: el contenido de `/etc/bookos/teclas.conf`.
//!
//! Cada línea es `origen = destino`. Las vacías y las que empiezan por `#` no
//! cuentan. El origen es `copilot` o una tecla; el destino, una tecla o `nada`.
//! Una tecla es un nombre de la tabla o `evdev:N`, con `N` entre 1 y
//! `KEY_MAX`. Las funciones del escritorio (`accion:` y `cmd:`) no existen
//! aquí. Un origen no puede repetirse.
use vstd::prelude::*;

use crate::nombres::{
    codigo_de_nombre, codigo_por_nombre, es_palabra, lema_codigo_de_nombre, lema_nombre_de_codigo,
    lema_palabras_propias,
    nombre_de_codigo, nombre_por_codigo,
};
use crate::texto::{
    anadir, buscar_caracter, cadena, caracteres, copia, decimal, entre, es_digito, es_espacio,
    es_primera, escribir_decimal, lema_decimal, lema_leer_decimal, lema_lineas_partir,
    lema_lineas_sin_salto, lema_primera_posicion, lema_recortar_espacio_final,
    lema_recortar_espacio_inicial, lema_recortar_sin_bordes, lema_recortar_vacio, leer_u32, lineas,
    numero_u32, partir_lineas, primera_posicion, recortado, recortar, tiene_salto,
};

verus! {

/// `KEY_MAX` de `linux/input-event-codes.h`.
pub const KEY_MAX: u32 = 0x2ff;

/// Un código de tecla que se puede escribir como `evdev:N`.
pub open spec fn codigo_valido(c: u32) -> bool {
    1 <= c <= KEY_MAX
}

#[derive(Debug, Clone, Copy, PartialEq, Eq, Structural)]
pub enum Origen {
    /// El acorde Meta+Mayús+F23 que manda la tecla de Copilot.
    Copilot,
    Evdev(u32),
}

#[derive(Debug, Clone, Copy, PartialEq, Eq, Structural)]
pub enum Destino {
    Tecla(u32),
    /// La tecla se traga: no sale por el teclado virtual.
    Nada,
}

// ---------------------------------------------------------------------------
// Mensajes de error

pub open spec fn error_codigo_no_valido(t: Seq<char>) -> Seq<char> {
    "código evdev no válido: «"@ + t + "»"@
}

pub open spec fn error_fuera_de_rango(c: u32) -> Seq<char> {
    "código evdev fuera de rango: "@ + decimal(c as nat)
}

pub open spec fn error_tecla_desconocida(t: Seq<char>) -> Seq<char> {
    "tecla desconocida: «"@ + t + "»"@
}

pub open spec fn error_solo_bookos(t: Seq<char>) -> Seq<char> {
    "«"@ + t
        + "» solo existe en el escritorio BookOS; aquí una tecla solo puede ser otra tecla o nada"@
}

pub open spec fn error_sin_igual(l: Seq<char>) -> Seq<char> {
    "línea sin «=»: «"@ + l + "»"@
}

pub open spec fn error_repetida(o: Origen) -> Seq<char> {
    "la tecla «"@ + texto_de_origen(o) + "» está repetida"@
}

// ---------------------------------------------------------------------------
// Palabras fijas

pub open spec fn prefijo_evdev() -> Seq<char> {
    seq!['e', 'v', 'd', 'e', 'v', ':']
}

pub open spec fn empieza_por_evdev(t: Seq<char>) -> bool {
    prefijo_evdev().is_prefix_of(t)
}

pub open spec fn es_copilot(t: Seq<char>) -> bool {
    t == seq!['c', 'o', 'p', 'i', 'l', 'o', 't']
}

pub open spec fn es_nada(t: Seq<char>) -> bool {
    t == seq!['n', 'a', 'd', 'a']
}

/// Las funciones del escritorio BookOS: `accion:` y `cmd:`.
pub open spec fn es_funcion_de_bookos(t: Seq<char>) -> bool {
    ||| seq!['a', 'c', 'c', 'i', 'o', 'n', ':'].is_prefix_of(t)
    ||| seq!['c', 'm', 'd', ':'].is_prefix_of(t)
}

// ---------------------------------------------------------------------------
// Teclas, orígenes y destinos como texto

/// Una tecla escrita como nombre o como `evdev:N`.
pub open spec fn tecla_desde_texto(t: Seq<char>) -> Result<u32, Seq<char>> {
    if empieza_por_evdev(t) {
        match numero_u32(recortar(t.skip(6))) {
            None => Err(error_codigo_no_valido(t)),
            Some(c) => if c == 0 || c > KEY_MAX {
                Err(error_fuera_de_rango(c))
            } else {
                Ok(c)
            },
        }
    } else {
        match codigo_de_nombre(t) {
            Some(c) => Ok(c),
            None => Err(error_tecla_desconocida(t)),
        }
    }
}

/// El nombre de la tabla o, sin él, `evdev:N`.
pub open spec fn texto_de_tecla(c: u32) -> Seq<char> {
    match nombre_de_codigo(c) {
        Some(n) => n,
        None => prefijo_evdev() + decimal(c as nat),
    }
}

pub open spec fn origen_desde_texto(t: Seq<char>) -> Result<Origen, Seq<char>> {
    if es_copilot(t) {
        Ok(Origen::Copilot)
    } else {
        match tecla_desde_texto(t) {
            Ok(c) => Ok(Origen::Evdev(c)),
            Err(e) => Err(e),
        }
    }
}

pub open spec fn texto_de_origen(o: Origen) -> Seq<char> {
    match o {
        Origen::Copilot => seq!['c', 'o', 'p', 'i', 'l', 'o', 't'],
        Origen::Evdev(c) => texto_de_tecla(c),
    }
}

pub open spec fn destino_desde_texto(t: Seq<char>) -> Result<Destino, Seq<char>> {
    if es_nada(t) {
        Ok(Destino::Nada)
    } else if es_funcion_de_bookos(t) {
        Err(error_solo_bookos(t))
    } else {
        match tecla_desde_texto(t) {
            Ok(c) => Ok(Destino::Tecla(c)),
            Err(e) => Err(e),
        }
    }
}

pub open spec fn texto_de_destino(d: Destino) -> Seq<char> {
    match d {
        Destino::Tecla(c) => texto_de_tecla(c),
        Destino::Nada => seq!['n', 'a', 'd', 'a'],
    }
}

/// El resultado visto como valores: el texto del error en vez del `String`.
pub open spec fn vista_resultado<T>(r: Result<T, String>) -> Result<T, Seq<char>> {
    match r {
        Ok(v) => Ok(v),
        Err(e) => Err(e@),
    }
}

fn es_prefijo_evdev(t: &[char]) -> (r: bool)
    ensures
        r == empieza_por_evdev(t@),
{
    t.len() >= 6 && t[0] == 'e' && t[1] == 'v' && t[2] == 'd' && t[3] == 'e' && t[4] == 'v' && t[5]
        == ':'
}

/// Una tecla escrita como nombre o como `evdev:N`.
pub fn tecla_de_texto(texto: &[char]) -> (r: Result<u32, String>)
    ensures
        vista_resultado(r) == tecla_desde_texto(texto@),
{
    if es_prefijo_evdev(texto) {
        let resto = copia(texto, 6, texto.len());
        let n = recortado(&resto);
        assert(resto@ =~= texto@.skip(6));
        match leer_u32(&n) {
            None => Err(entre("código evdev no válido: «", texto, "»")),
            Some(codigo) => {
                if codigo == 0 || codigo > KEY_MAX {
                    let mut cifras: Vec<char> = Vec::new();
                    escribir_decimal(codigo, &mut cifras);
                    assert(cifras@ =~= decimal(codigo as nat));
                    proof {
                        reveal_strlit("");
                    }
                    assert(""@ =~= Seq::<char>::empty());
                    Err(entre("código evdev fuera de rango: ", &cifras, ""))
                } else {
                    Ok(codigo)
                }
            },
        }
    } else {
        match codigo_por_nombre(texto) {
            Some(c) => Ok(c),
            None => Err(entre("tecla desconocida: «", texto, "»")),
        }
    }
}

/// El nombre de la tabla o, sin él, `evdev:N`.
pub fn tecla_a_texto(codigo: u32) -> (r: Vec<char>)
    ensures
        r@ == texto_de_tecla(codigo),
{
    match nombre_por_codigo(codigo) {
        Some(n) => n,
        None => {
            let mut r: Vec<char> = vec!['e', 'v', 'd', 'e', 'v', ':'];
            escribir_decimal(codigo, &mut r);
            r
        },
    }
}

impl Origen {
    pub fn desde_texto(texto: &[char]) -> (r: Result<Self, String>)
        ensures
            vista_resultado(r) == origen_desde_texto(texto@),
    {
        if texto.len() == 7 && texto[0] == 'c' && texto[1] == 'o' && texto[2] == 'p' && texto[3]
            == 'i' && texto[4] == 'l' && texto[5] == 'o' && texto[6] == 't' {
            assert(texto@ =~= seq!['c', 'o', 'p', 'i', 'l', 'o', 't']);
            Ok(Origen::Copilot)
        } else {
            match tecla_de_texto(texto) {
                Ok(c) => Ok(Origen::Evdev(c)),
                Err(e) => Err(e),
            }
        }
    }

    pub fn a_texto(self) -> (r: Vec<char>)
        ensures
            r@ == texto_de_origen(self),
    {
        match self {
            Origen::Copilot => vec!['c', 'o', 'p', 'i', 'l', 'o', 't'],
            Origen::Evdev(codigo) => tecla_a_texto(codigo),
        }
    }
}

impl Destino {
    pub fn desde_texto(texto: &[char]) -> (r: Result<Self, String>)
        ensures
            vista_resultado(r) == destino_desde_texto(texto@),
    {
        if texto.len() == 4 && texto[0] == 'n' && texto[1] == 'a' && texto[2] == 'd' && texto[3]
            == 'a' {
            assert(texto@ =~= seq!['n', 'a', 'd', 'a']);
            return Ok(Destino::Nada);
        }
        let accion = texto.len() >= 7 && texto[0] == 'a' && texto[1] == 'c' && texto[2] == 'c'
            && texto[3] == 'i' && texto[4] == 'o' && texto[5] == 'n' && texto[6] == ':';
        let cmd = texto.len() >= 4 && texto[0] == 'c' && texto[1] == 'm' && texto[2] == 'd'
            && texto[3] == ':';
        if accion || cmd {
            return Err(
                entre(
                    "«",
                    texto,
                    "» solo existe en el escritorio BookOS; aquí una tecla solo puede ser otra tecla o nada",
                ),
            );
        }
        match tecla_de_texto(texto) {
            Ok(c) => Ok(Destino::Tecla(c)),
            Err(e) => Err(e),
        }
    }

    pub fn a_texto(self) -> (r: Vec<char>)
        ensures
            r@ == texto_de_destino(self),
    {
        match self {
            Destino::Tecla(codigo) => tecla_a_texto(codigo),
            Destino::Nada => vec!['n', 'a', 'd', 'a'],
        }
    }
}

// ---------------------------------------------------------------------------
// Listas de remapeos

/// `i` es la primera entrada con origen `o`.
pub open spec fn es_primera_entrada(s: Seq<(Origen, Destino)>, o: Origen, i: int) -> bool {
    &&& 0 <= i < s.len()
    &&& s[i].0 == o
    &&& forall|j: int| 0 <= j < i ==> s[j].0 != o
}

/// El destino de la primera entrada con origen `o`.
pub open spec fn destino_de(s: Seq<(Origen, Destino)>, o: Origen) -> Option<Destino> {
    if exists|i: int| es_primera_entrada(s, o, i) {
        Some(s[choose|i: int| es_primera_entrada(s, o, i)].1)
    } else {
        None
    }
}

/// La entrada `i` repite el origen de otra anterior.
pub open spec fn repetida_en(s: Seq<(Origen, Destino)>, i: int) -> bool {
    &&& 0 <= i < s.len()
    &&& exists|j: int| 0 <= j < i && s[j].0 == s[i].0
}

pub open spec fn es_primera_repetida(s: Seq<(Origen, Destino)>, i: int) -> bool {
    &&& repetida_en(s, i)
    &&& forall|k: int| 0 <= k < i ==> !repetida_en(s, k)
}

/// Una lista sin orígenes repetidos; con uno, el error nombra el primero que
/// se repite.
pub open spec fn validar_entradas(s: Seq<(Origen, Destino)>) -> Result<
    Seq<(Origen, Destino)>,
    Seq<char>,
> {
    if exists|i: int| es_primera_repetida(s, i) {
        Err(error_repetida(s[choose|i: int| es_primera_repetida(s, i)].0))
    } else {
        Ok(s)
    }
}

pub open spec fn origenes_unicos(s: Seq<(Origen, Destino)>) -> bool {
    forall|i: int, j: int| #![trigger s[i], s[j]] 0 <= i < j < s.len() ==> s[i].0 != s[j].0
}

pub open spec fn entrada_valida(e: (Origen, Destino)) -> bool {
    &&& (e.0 matches Origen::Evdev(c) ==> codigo_valido(c))
    &&& (e.1 matches Destino::Tecla(c) ==> codigo_valido(c))
}

/// Lo que puede guardar un `Remapeos`: orígenes sin repetir y códigos que se
/// pueden escribir.
pub open spec fn remapeos_validos(s: Seq<(Origen, Destino)>) -> bool {
    &&& origenes_unicos(s)
    &&& forall|i: int| 0 <= i < s.len() ==> entrada_valida(#[trigger] s[i])
}

/// Un resultado parcial precedido de las entradas ya leídas.
pub open spec fn anteponer(
    antes: Seq<(Origen, Destino)>,
    r: Result<Seq<(Origen, Destino)>, Seq<char>>,
) -> Result<Seq<(Origen, Destino)>, Seq<char>> {
    match r {
        Ok(s) => Ok(antes + s),
        Err(e) => Err(e),
    }
}

// ---------------------------------------------------------------------------
// El fichero

/// Tras recortarla, una línea vacía o que empieza por `#` no cuenta.
pub open spec fn linea_ignorada(l: Seq<char>) -> bool {
    l.len() == 0 || l[0] == '#'
}

/// Una línea recortada `origen = destino`, partida por el primer `=`.
pub open spec fn entrada_de_linea(l: Seq<char>) -> Result<(Origen, Destino), Seq<char>> {
    match primera_posicion(l, '=') {
        None => Err(error_sin_igual(l)),
        Some(i) => match origen_desde_texto(recortar(l.take(i))) {
            Err(e) => Err(e),
            Ok(o) => match destino_desde_texto(recortar(l.skip(i + 1))) {
                Err(e) => Err(e),
                Ok(d) => Ok((o, d)),
            },
        },
    }
}

/// Las entradas de unas líneas, en orden; el primer error las para todas.
pub open spec fn entradas_de_lineas(ls: Seq<Seq<char>>) -> Result<
    Seq<(Origen, Destino)>,
    Seq<char>,
>
    decreases ls.len(),
{
    if ls.len() == 0 {
        Ok(seq![])
    } else {
        let l = recortar(ls[0]);
        if linea_ignorada(l) {
            entradas_de_lineas(ls.drop_first())
        } else {
            match entrada_de_linea(l) {
                Err(e) => Err(e),
                Ok(e) => anteponer(seq![e], entradas_de_lineas(ls.drop_first())),
            }
        }
    }
}

/// Lo que dice de los remapeos el texto de `teclas.conf`.
pub open spec fn remapeos_de_texto(t: Seq<char>) -> Result<Seq<(Origen, Destino)>, Seq<char>> {
    match entradas_de_lineas(lineas(t)) {
        Ok(s) => validar_entradas(s),
        Err(e) => Err(e),
    }
}

/// `# Remapeo de teclas de BookOS: origen = destino.`
pub open spec fn cabecera() -> Seq<char> {
    seq!['#', ' ', 'R', 'e', 'm', 'a', 'p', 'e', 'o', ' ', 'd', 'e', ' ', 't', 'e', 'c', 'l', 'a', 's', ' ', 'd', 'e', ' ', 'B', 'o', 'o', 'k', 'O', 'S', ':', ' ', 'o', 'r', 'i', 'g', 'e', 'n', ' ', '=', ' ', 'd', 'e', 's', 't', 'i', 'n', 'o', '.']
}

/// `origen = destino`
pub open spec fn linea_de(e: (Origen, Destino)) -> Seq<char> {
    texto_de_origen(e.0) + seq![' ', '=', ' '] + texto_de_destino(e.1)
}

/// Una línea por entrada, cada una con su salto.
pub open spec fn cuerpo(s: Seq<(Origen, Destino)>) -> Seq<char>
    decreases s.len(),
{
    if s.len() == 0 {
        seq![]
    } else {
        linea_de(s[0]) + seq!['\n'] + cuerpo(s.drop_first())
    }
}

/// El texto de `teclas.conf`: la cabecera y una línea por entrada.
pub open spec fn texto_de_remapeos(s: Seq<(Origen, Destino)>) -> Seq<char> {
    cabecera() + seq!['\n'] + cuerpo(s)
}

// ---------------------------------------------------------------------------
// Las entradas que viajan por D-Bus

/// Una entrada tal como viaja por D-Bus: los mismos textos que en el fichero.
#[derive(Debug, Clone)]
pub struct EntradaJson {
    pub origen: String,
    pub destino: String,
}

/// Los textos de cada entrada.
pub open spec fn pares_de_entradas(es: Seq<EntradaJson>) -> Seq<(Seq<char>, Seq<char>)> {
    Seq::new(es.len(), |i: int| (es[i].origen@, es[i].destino@))
}

/// Una entrada desde sus dos textos, recortados. Un destino con un salto de
/// línea, esté donde esté, no es el nombre de ninguna tecla.
pub open spec fn entrada_de_par(p: (Seq<char>, Seq<char>)) -> Result<(Origen, Destino), Seq<char>> {
    match origen_desde_texto(recortar(p.0)) {
        Err(e) => Err(e),
        Ok(o) => if p.1.contains('\n') {
            Err(error_tecla_desconocida(recortar(p.1)))
        } else {
            match destino_desde_texto(recortar(p.1)) {
                Err(e) => Err(e),
                Ok(d) => Ok((o, d)),
            }
        },
    }
}

pub open spec fn entradas_de_pares(ps: Seq<(Seq<char>, Seq<char>)>) -> Result<
    Seq<(Origen, Destino)>,
    Seq<char>,
>
    decreases ps.len(),
{
    if ps.len() == 0 {
        Ok(seq![])
    } else {
        match entrada_de_par(ps[0]) {
            Err(e) => Err(e),
            Ok(e) => anteponer(seq![e], entradas_de_pares(ps.drop_first())),
        }
    }
}

/// Lo que dicen de los remapeos las entradas recibidas por D-Bus.
pub open spec fn remapeos_de_pares(ps: Seq<(Seq<char>, Seq<char>)>) -> Result<
    Seq<(Origen, Destino)>,
    Seq<char>,
> {
    match entradas_de_pares(ps) {
        Ok(s) => validar_entradas(s),
        Err(e) => Err(e),
    }
}

/// Los textos de cada entrada de unos remapeos.
pub open spec fn pares_de_remapeos(s: Seq<(Origen, Destino)>) -> Seq<(Seq<char>, Seq<char>)> {
    Seq::new(s.len(), |i: int| (texto_de_origen(s[i].0), texto_de_destino(s[i].1)))
}

// ---------------------------------------------------------------------------
// Remapeos

#[derive(Debug, PartialEq, Eq)]
pub struct Remapeos(Vec<(Origen, Destino)>);

impl Clone for Remapeos {
    /// Los mismos remapeos.
    fn clone(&self) -> (r: Self)
        ensures
            r@ == self@,
    {
        proof {
            use_type_invariant(self);
        }
        let mut v: Vec<(Origen, Destino)> = Vec::new();
        let mut i: usize = 0;
        while i < self.0.len()
            invariant
                i <= self.0@.len(),
                v@ == self.0@.take(i as int),
            decreases self.0@.len() - i,
        {
            v.push(self.0[i]);
            i = i + 1;
            assert(v@ =~= self.0@.take(i as int));
        }
        assert(v@ =~= self.0@);
        Remapeos(v)
    }
}

impl Remapeos {
    /// Todo `Remapeos` guarda remapeos válidos: solo se construye leyendo y
    /// validando, o vacío.
    #[verifier::type_invariant]
    spec fn valido(self) -> bool {
        remapeos_validos(self.0@)
    }
}

impl View for Remapeos {
    type V = Seq<(Origen, Destino)>;

    closed spec fn view(&self) -> Seq<(Origen, Destino)> {
        self.0@
    }
}

/// El resultado de leer remapeos, visto como valores.
pub open spec fn vista_remapeos(r: Result<Remapeos, String>) -> Result<
    Seq<(Origen, Destino)>,
    Seq<char>,
> {
    match r {
        Ok(m) => Ok(m@),
        Err(e) => Err(e@),
    }
}

impl Default for Remapeos {
    /// Sin remapeos.
    fn default() -> (r: Self)
        ensures
            r@ == Seq::<(Origen, Destino)>::empty(),
            remapeos_validos(r@),
    {
        Remapeos(Vec::new())
    }
}

proof fn lema_primera_entrada_unica(s: Seq<(Origen, Destino)>, o: Origen, i: int, k: int)
    requires
        es_primera_entrada(s, o, i),
        es_primera_entrada(s, o, k),
    ensures
        i == k,
{
    if i < k {
        assert(s[i].0 != o);
    } else if k < i {
        assert(s[k].0 != o);
    }
}

proof fn lema_primera_repetida_unica(s: Seq<(Origen, Destino)>, i: int, k: int)
    requires
        es_primera_repetida(s, i),
        es_primera_repetida(s, k),
    ensures
        i == k,
{
}

/// Si alguna entrada se repite, hay una primera.
proof fn lema_hay_primera_repetida(s: Seq<(Origen, Destino)>, i: int)
    requires
        repetida_en(s, i),
    ensures
        exists|k: int| es_primera_repetida(s, k),
    decreases i,
{
    if exists|k: int| 0 <= k < i && repetida_en(s, k) {
        let k = choose|k: int| 0 <= k < i && repetida_en(s, k);
        lema_hay_primera_repetida(s, k);
    } else {
        assert(es_primera_repetida(s, i));
    }
}

/// La validación deja pasar justo las listas sin orígenes repetidos.
pub proof fn lema_validar_unicos(s: Seq<(Origen, Destino)>)
    ensures
        validar_entradas(s) is Ok <==> origenes_unicos(s),
        validar_entradas(s) is Ok ==> validar_entradas(s) == Ok::<Seq<(Origen, Destino)>, Seq<char>>(s),
{
    if !origenes_unicos(s) {
        let (i, j) = choose|i: int, j: int| 0 <= i < j < s.len() && s[i].0 == s[j].0;
        assert(repetida_en(s, j));
        lema_hay_primera_repetida(s, j);
    } else {
        assert forall|k: int| !es_primera_repetida(s, k) by {
            if repetida_en(s, k) {
                let j = choose|j: int| 0 <= j < k && s[j].0 == s[k].0;
                assert(s[j].0 != s[k].0);
            }
        }
    }
}

impl Remapeos {
    /// El destino de `origen`, si tiene.
    pub fn buscar(&self, origen: Origen) -> (r: Option<Destino>)
        ensures
            r == destino_de(self@, origen),
            forall|d: Destino| r == Some(d) <==> self@.contains((origen, d)),
    {
        proof {
            use_type_invariant(self);
            assert forall|d: Destino| destino_de(self@, origen) == Some(d) <==> self@.contains(
                (origen, d),
            ) by {
                ley_buscar_en_remapeos_validos(self@, origen, d);
            }
        }
        let mut i: usize = 0;
        while i < self.0.len()
            invariant
                i <= self.0@.len(),
                forall|j: int| 0 <= j < i ==> self.0@[j].0 != origen,
                forall|d: Destino| destino_de(self@, origen) == Some(d) <==> self@.contains(
                    (origen, d),
                ),
            decreases self.0@.len() - i,
        {
            if self.0[i].0 == origen {
                proof {
                    assert(es_primera_entrada(self@, origen, i as int));
                    let k = choose|k: int| es_primera_entrada(self@, origen, k);
                    lema_primera_entrada_unica(self@, origen, i as int, k);
                }
                return Some(self.0[i].1);
            }
            i = i + 1;
        }
        None
    }

    /// Acepta la lista, tal cual, si ningún origen se repite; si no, el error
    /// nombra el primero que se repite.
    fn validar(entradas: Vec<(Origen, Destino)>) -> (r: Result<Vec<(Origen, Destino)>, String>)
        ensures
            match r {
                Ok(v) => validar_entradas(entradas@) == Ok::<Seq<(Origen, Destino)>, Seq<char>>(v@),
                Err(e) => validar_entradas(entradas@) == Err::<Seq<(Origen, Destino)>, Seq<char>>(e@),
            },
    {
        let n = entradas.len();
        let mut i: usize = 0;
        while i < n
            invariant
                i <= n,
                n == entradas@.len(),
                forall|k: int| 0 <= k < i ==> !repetida_en(entradas@, k),
            decreases n - i,
        {
            let mut j: usize = 0;
            while j < i
                invariant
                    j <= i < n,
                    n == entradas@.len(),
                    forall|k: int| 0 <= k < i ==> !repetida_en(entradas@, k),
                    forall|k: int| 0 <= k < j ==> entradas@[k].0 != entradas@[i as int].0,
                decreases i - j,
            {
                if entradas[j].0 == entradas[i].0 {
                    let origen = entradas[i].0;
                    let texto = origen.a_texto();
                    proof {
                        let s = entradas@;
                        assert(repetida_en(s, i as int));
                        assert(es_primera_repetida(s, i as int));
                        let k = choose|k: int| es_primera_repetida(s, k);
                        lema_primera_repetida_unica(s, i as int, k);
                    }
                    return Err(entre("la tecla «", &texto, "» está repetida"));
                }
                j = j + 1;
            }
            proof {
                let s = entradas@;
                if repetida_en(s, i as int) {
                    let j = choose|j: int| 0 <= j < i && s[j].0 == s[i as int].0;
                    assert(s[j].0 != s[i as int].0);
                }
            }
            i = i + 1;
        }
        proof {
            assert forall|k: int| !es_primera_repetida(entradas@, k) by {
                if es_primera_repetida(entradas@, k) {
                    assert(!repetida_en(entradas@, k));
                }
            }
            lema_validar_unicos(entradas@);
        }
        Ok(entradas)
    }

    /// Una línea recortada `origen = destino`.
    fn leer_linea(linea: &[char]) -> (r: Result<(Origen, Destino), String>)
        ensures
            vista_resultado(r) == entrada_de_linea(linea@),
    {
        assert(linea@.subrange(0, linea@.len() as int) =~= linea@);
        let n = linea.len();
        match buscar_caracter(linea, '=', 0) {
            None => Err(entre("línea sin «=»: «", linea, "»")),
            Some(i) => {
                let izquierda = copia(linea, 0, i);
                let origen_texto = recortado(&izquierda);
                assert(izquierda@ =~= linea@.take(i as int));
                let origen = match Origen::desde_texto(&origen_texto) {
                    Ok(o) => o,
                    Err(e) => {
                        return Err(e);
                    },
                };
                let derecha = copia(linea, i + 1, linea.len());
                let destino_texto = recortado(&derecha);
                assert(derecha@ =~= linea@.skip(i + 1));
                match Destino::desde_texto(&destino_texto) {
                    Ok(d) => Ok((origen, d)),
                    Err(e) => Err(e),
                }
            },
        }
    }

    /// Lee el texto de `teclas.conf`.
    pub fn desde_texto(texto: &str) -> (r: Result<Self, String>)
        ensures
            vista_remapeos(r) == remapeos_de_texto(texto@),
            r matches Ok(m) ==> remapeos_validos(m@),
    {
        proof {
            ley_texto_leido_valido(texto@);
        }
        let caracteres_texto = caracteres(texto);
        let lineas_texto = partir_lineas(&caracteres_texto);
        let ghost ls = lineas_texto.deep_view();
        let mut entradas: Vec<(Origen, Destino)> = Vec::new();
        let mut i: usize = 0;
        assert(ls.skip(0) =~= ls);
        while i < lineas_texto.len()
            invariant
                i <= lineas_texto@.len(),
                ls == lineas_texto.deep_view(),
                ls == lineas(texto@),
                entradas_de_lineas(ls) == anteponer(entradas@, entradas_de_lineas(ls.skip(i as int))),
                forall|k: int| 0 <= k < entradas@.len() ==> entrada_valida(#[trigger] entradas@[k]),
            decreases lineas_texto@.len() - i,
        {
            let linea = recortado(lineas_texto[i].as_slice());
            proof {
                assert(lineas_texto@[i as int]@ =~= ls[i as int]);
                assert(ls.skip(i as int)[0] == ls[i as int]);
                assert(ls.skip(i as int).drop_first() =~= ls.skip(i + 1));
            }
            if linea.len() == 0 || linea[0] == '#' {
            } else {
                match Remapeos::leer_linea(&linea) {
                    Err(e) => {
                        return Err(e);
                    },
                    Ok(e) => {
                        proof {
                            lema_linea_leida_valida(linea@);
                            let antes = entradas@;
                            match entradas_de_lineas(ls.skip(i + 1)) {
                                Ok(resto) => {
                                    assert(antes + (seq![e] + resto) =~= antes.push(e) + resto);
                                },
                                Err(_) => {},
                            }
                        }
                        entradas.push(e);
                    },
                }
            }
            i = i + 1;
        }
        proof {
            assert(ls.skip(i as int) =~= Seq::<Seq<char>>::empty());
            assert(entradas@ + Seq::<(Origen, Destino)>::empty() =~= entradas@);
        }
        match Remapeos::validar(entradas) {
            Ok(v) => {
                proof {
                    lema_validar_unicos(v@);
                }
                Ok(Remapeos(v))
            },
            Err(e) => Err(e),
        }
    }

    /// Los remapeos de `teclas.conf`, con su contenido si el fichero existe.
    /// Sin fichero no hay remapeos. Con un fichero roto tampoco, y se devuelve
    /// el porqué: aplicar la mitad buena dejaría teclas cambiadas que el
    /// usuario no reconoce.
    pub fn de_fichero(contenido: Option<&str>) -> (r: (Self, Option<String>))
        ensures
            remapeos_validos(r.0@),
            contenido is None ==> r.0@ == Seq::<(Origen, Destino)>::empty() && r.1 is None,
            contenido matches Some(t) ==> match remapeos_de_texto(t@) {
                Ok(s) => r.0@ == s && r.1 is None,
                Err(e) => r.0@ == Seq::<(Origen, Destino)>::empty() && (r.1 matches Some(m)
                    && m@ == e),
            },
    {
        match contenido {
            None => (Remapeos::default(), None),
            Some(texto) => match Remapeos::desde_texto(texto) {
                Ok(m) => (m, None),
                Err(e) => (Remapeos::default(), Some(e)),
            },
        }
    }

    /// El texto de `teclas.conf`: la cabecera y una línea por entrada.
    pub fn a_texto(&self) -> (r: String)
        ensures
            r@ == texto_de_remapeos(self@),
            remapeos_de_texto(r@) == Ok::<Seq<(Origen, Destino)>, Seq<char>>(self@),
    {
        proof {
            use_type_invariant(self);
            ley_texto_ida_y_vuelta(self@);
        }
        let mut salida: Vec<char> = vec!['#', ' ', 'R', 'e', 'm', 'a', 'p', 'e', 'o', ' ', 'd', 'e', ' ', 't', 'e', 'c', 'l', 'a', 's', ' ', 'd', 'e', ' ', 'B', 'o', 'o', 'k', 'O', 'S', ':', ' ', 'o', 'r', 'i', 'g', 'e', 'n', ' ', '=', ' ', 'd', 'e', 's', 't', 'i', 'n', 'o', '.', '\n'];
        let mut i: usize = 0;
        while i < self.0.len()
            invariant
                i <= self.0@.len(),
                salida@ == cabecera() + seq!['\n'] + cuerpo(self@.take(i as int)),
            decreases self.0@.len() - i,
        {
            let (origen, destino) = self.0[i];
            let o = origen.a_texto();
            let d = destino.a_texto();
            anadir(&mut salida, &o);
            salida.push(' ');
            salida.push('=');
            salida.push(' ');
            anadir(&mut salida, &d);
            salida.push('\n');
            proof {
                lema_cuerpo_anadir(self@.take(i as int), self@[i as int]);
                assert(self@.take(i + 1) =~= self@.take(i as int).push(self@[i as int]));
            }
            i = i + 1;
        }
        assert(self@.take(self@.len() as int) =~= self@);
        cadena(&salida)
    }

    /// Lee las entradas recibidas por D-Bus.
    pub fn desde_entradas(entradas_json: &Vec<EntradaJson>) -> (r: Result<Self, String>)
        ensures
            vista_remapeos(r) == remapeos_de_pares(pares_de_entradas(entradas_json@)),
            r matches Ok(m) ==> remapeos_validos(m@),
    {
        proof {
            ley_entradas_leidas_validas(pares_de_entradas(entradas_json@));
        }
        let ghost ps = pares_de_entradas(entradas_json@);
        let mut entradas: Vec<(Origen, Destino)> = Vec::new();
        let mut i: usize = 0;
        assert(ps.skip(0) =~= ps);
        while i < entradas_json.len()
            invariant
                i <= entradas_json@.len(),
                ps == pares_de_entradas(entradas_json@),
                entradas_de_pares(ps) == anteponer(entradas@, entradas_de_pares(ps.skip(i as int))),
                forall|k: int| 0 <= k < entradas@.len() ==> entrada_valida(#[trigger] entradas@[k]),
            decreases entradas_json@.len() - i,
        {
            let origen_texto = recortado(&caracteres(entradas_json[i].origen.as_str()));
            let destino_bruto = caracteres(entradas_json[i].destino.as_str());
            let destino_texto = recortado(&destino_bruto);
            proof {
                assert(ps.skip(i as int)[0] == ps[i as int]);
                assert(ps.skip(i as int).drop_first() =~= ps.skip(i + 1));
            }
            let origen = match Origen::desde_texto(&origen_texto) {
                Ok(o) => o,
                Err(e) => {
                    return Err(e);
                },
            };
            if tiene_salto(&destino_bruto) {
                return Err(entre("tecla desconocida: «", &destino_texto, "»"));
            }
            let destino = match Destino::desde_texto(&destino_texto) {
                Ok(d) => d,
                Err(e) => {
                    return Err(e);
                },
            };
            proof {
                lema_entrada_leida_valida(
                    Ok::<Origen, Seq<char>>(origen),
                    Ok::<Destino, Seq<char>>(destino),
                    origen_texto@,
                    destino_texto@,
                );
                let antes = entradas@;
                let e = (origen, destino);
                match entradas_de_pares(ps.skip(i + 1)) {
                    Ok(resto) => {
                        assert(antes + (seq![e] + resto) =~= antes.push(e) + resto);
                    },
                    Err(_) => {},
                }
            }
            entradas.push((origen, destino));
            i = i + 1;
        }
        proof {
            assert(ps.skip(i as int) =~= Seq::<(Seq<char>, Seq<char>)>::empty());
            assert(entradas@ + Seq::<(Origen, Destino)>::empty() =~= entradas@);
        }
        match Remapeos::validar(entradas) {
            Ok(v) => {
                proof {
                    lema_validar_unicos(v@);
                }
                Ok(Remapeos(v))
            },
            Err(e) => Err(e),
        }
    }

    /// Las entradas para D-Bus: los mismos textos que en el fichero.
    pub fn a_entradas(&self) -> (r: Vec<EntradaJson>)
        ensures
            pares_de_entradas(r@) =~= pares_de_remapeos(self@),
            remapeos_de_pares(pares_de_entradas(r@)) == Ok::<Seq<(Origen, Destino)>, Seq<char>>(
                self@,
            ),
    {
        proof {
            use_type_invariant(self);
            ley_entradas_ida_y_vuelta(self@);
        }
        let mut r: Vec<EntradaJson> = Vec::new();
        let mut i: usize = 0;
        while i < self.0.len()
            invariant
                i <= self.0@.len(),
                r@.len() == i,
                pares_de_entradas(r@) =~= pares_de_remapeos(self@.take(i as int)),
            decreases self.0@.len() - i,
        {
            let (origen, destino) = self.0[i];
            let o = origen.a_texto();
            let d = destino.a_texto();
            let ghost antes = r@;
            r.push(EntradaJson { origen: cadena(&o), destino: cadena(&d) });
            proof {
                assert(r@ =~= antes.push(r@[i as int]));
                assert(self@.take(i + 1) =~= self@.take(i as int).push(self@[i as int]));
                assert forall|j: int| 0 <= j < i + 1 implies pares_de_entradas(r@)[j]
                    == pares_de_remapeos(self@.take(i + 1))[j] by {
                    if j < i {
                        assert(pares_de_entradas(antes)[j] == pares_de_remapeos(
                            self@.take(i as int),
                        )[j]);
                    }
                }
            }
            i = i + 1;
        }
        assert(self@.take(self@.len() as int) =~= self@);
        r
    }
}

/// Añadir una entrada al final añade su línea.
proof fn lema_cuerpo_anadir(s: Seq<(Origen, Destino)>, e: (Origen, Destino))
    ensures
        cuerpo(s.push(e)) == cuerpo(s) + linea_de(e) + seq!['\n'],
    decreases s.len(),
{
    if s.len() == 0 {
        assert(s.push(e).drop_first() =~= Seq::<(Origen, Destino)>::empty());
        assert(cuerpo(s.push(e).drop_first()) == Seq::<char>::empty());
        assert(s.push(e)[0] == e);
        assert(cuerpo(s) == Seq::<char>::empty());
        assert(cuerpo(s.push(e)) =~= cuerpo(s) + linea_de(e) + seq!['\n']);
    } else {
        lema_cuerpo_anadir(s.drop_first(), e);
        assert(s.push(e).drop_first() =~= s.drop_first().push(e));
        assert(s.push(e)[0] == s[0]);
        let a = linea_de(s[0]) + seq!['\n'];
        assert(cuerpo(s.push(e)) == a + cuerpo(s.drop_first().push(e)));
        assert(cuerpo(s) == a + cuerpo(s.drop_first()));
        assert(cuerpo(s.push(e)) =~= cuerpo(s) + linea_de(e) + seq!['\n']);
    }
}

// ---------------------------------------------------------------------------
// Leyes

/// Un carácter que puede estar en un nombre de tecla, de origen o de destino.
pub open spec fn caracter_de_campo(c: char) -> bool {
    !es_espacio(c) && c != '=' && c != '#' && c != '\n'
}

/// Un texto que se lee igual recortado, sin `=` ni saltos de línea ni `#`.
pub open spec fn es_campo(s: Seq<char>) -> bool {
    &&& s.len() > 0
    &&& forall|i: int| 0 <= i < s.len() ==> caracter_de_campo(#[trigger] s[i])
}

proof fn lema_campo_recortado(s: Seq<char>)
    requires
        es_campo(s),
    ensures
        recortar(s) == s,
        recortar(s + seq![' ']) == s,
        recortar(seq![' '] + s) == s,
{
    assert(caracter_de_campo(s[0]));
    assert(caracter_de_campo(s[s.len() - 1]));
    lema_recortar_sin_bordes(s);
    lema_recortar_espacio_final(s);
    lema_recortar_espacio_inicial(s);
}

/// Una tecla con código válido se escribe y se vuelve a leer igual.
proof fn lema_tecla_ida_y_vuelta(c: u32)
    requires
        codigo_valido(c),
    ensures
        tecla_desde_texto(texto_de_tecla(c)) == Ok::<u32, Seq<char>>(c),
        es_campo(texto_de_tecla(c)),
        !es_copilot(texto_de_tecla(c)),
        !es_nada(texto_de_tecla(c)),
        !es_funcion_de_bookos(texto_de_tecla(c)),
{
    lema_nombre_de_codigo(c);
    match nombre_de_codigo(c) {
        Some(n) => {
            assert(es_palabra(n));
            let copilot = seq!['c', 'o', 'p', 'i', 'l', 'o', 't'];
            let nada = seq!['n', 'a', 'd', 'a'];
            lema_palabras_propias();
            if es_copilot(n) {
                assert(n =~= copilot);
            }
            if es_nada(n) {
                assert(n =~= nada);
            }
            if n.len() >= 6 {
                assert(('a' <= n[5] && n[5] <= 'z') || n[5] == '_');
            }
            if n.len() >= 7 {
                assert(('a' <= n[6] && n[6] <= 'z') || n[6] == '_');
            }
            if n.len() >= 4 {
                assert(('a' <= n[3] && n[3] <= 'z') || n[3] == '_');
            }
            assert forall|i: int| 0 <= i < n.len() implies caracter_de_campo(#[trigger] n[i]) by {
                assert(('a' <= n[i] && n[i] <= 'z') || n[i] == '_');
            }
        },
        None => {
            let d = decimal(c as nat);
            let t = prefijo_evdev() + d;
            lema_decimal(c as nat);
            lema_leer_decimal(c);
            assert(t.skip(6) =~= d);
            assert forall|i: int| 0 <= i < d.len() implies caracter_de_campo(#[trigger] d[i]) by {
                assert(es_digito(d[i]));
            }
            lema_campo_recortado(d);
            assert forall|i: int| 0 <= i < t.len() implies caracter_de_campo(#[trigger] t[i]) by {
                if i >= 6 {
                    assert(t[i] == d[i - 6]);
                }
            }
        },
    }
}

/// Un origen válido se escribe y se vuelve a leer igual.
proof fn lema_origen_ida_y_vuelta(o: Origen)
    requires
        o matches Origen::Evdev(c) ==> codigo_valido(c),
    ensures
        origen_desde_texto(texto_de_origen(o)) == Ok::<Origen, Seq<char>>(o),
        es_campo(texto_de_origen(o)),
{
    match o {
        Origen::Copilot => {
            let t = texto_de_origen(o);
            assert forall|i: int| 0 <= i < t.len() implies caracter_de_campo(#[trigger] t[i]) by {
                assert(('a' <= t[i] && t[i] <= 'z'));
            }
        },
        Origen::Evdev(c) => {
            lema_tecla_ida_y_vuelta(c);
        },
    }
}

/// Un destino válido se escribe y se vuelve a leer igual.
proof fn lema_destino_ida_y_vuelta(d: Destino)
    requires
        d matches Destino::Tecla(c) ==> codigo_valido(c),
    ensures
        destino_desde_texto(texto_de_destino(d)) == Ok::<Destino, Seq<char>>(d),
        es_campo(texto_de_destino(d)),
{
    match d {
        Destino::Nada => {
            let t = texto_de_destino(d);
            assert forall|i: int| 0 <= i < t.len() implies caracter_de_campo(#[trigger] t[i]) by {
                assert(('a' <= t[i] && t[i] <= 'z'));
            }
        },
        Destino::Tecla(c) => {
            lema_tecla_ida_y_vuelta(c);
        },
    }
}

/// La línea de una entrada válida se lee como esa entrada.
proof fn lema_linea_ida_y_vuelta(e: (Origen, Destino))
    requires
        entrada_valida(e),
    ensures
        entrada_de_linea(linea_de(e)) == Ok::<(Origen, Destino), Seq<char>>(e),
        recortar(linea_de(e)) == linea_de(e),
        !linea_ignorada(linea_de(e)),
        forall|j: int| 0 <= j < linea_de(e).len() ==> linea_de(e)[j] != '\n',
{
    lema_origen_ida_y_vuelta(e.0);
    lema_destino_ida_y_vuelta(e.1);
    let x = texto_de_origen(e.0);
    let y = texto_de_destino(e.1);
    let l = linea_de(e);
    let k = x.len() as int;
    assert(l[k + 1] == '=');
    assert forall|j: int| 0 <= j < k + 1 implies l[j] != '=' by {
        if j < k {
            assert(l[j] == x[j]);
            assert(caracter_de_campo(x[j]));
        }
    }
    assert(es_primera(l, '=', k + 1));
    lema_primera_posicion(l, '=', k + 1);
    assert(l.take(k + 1) =~= x + seq![' ']);
    assert(l.skip(k + 2) =~= seq![' '] + y);
    lema_campo_recortado(x);
    lema_campo_recortado(y);
    assert(caracter_de_campo(x[0]));
    assert(l[0] == x[0]);
    assert(caracter_de_campo(y[y.len() - 1]));
    assert(l.last() == y[y.len() - 1]);
    lema_recortar_sin_bordes(l);
    assert forall|j: int| 0 <= j < l.len() implies l[j] != '\n' by {
        if j < k {
            assert(l[j] == x[j]);
            assert(caracter_de_campo(x[j]));
        } else if j >= k + 3 {
            assert(l[j] == y[j - k - 3]);
            assert(caracter_de_campo(y[j - k - 3]));
        }
    }
}

/// Las líneas de cada entrada.
pub open spec fn lineas_de(s: Seq<(Origen, Destino)>) -> Seq<Seq<char>> {
    Seq::new(s.len(), |i: int| linea_de(s[i]))
}

proof fn lema_lineas_del_cuerpo(s: Seq<(Origen, Destino)>)
    requires
        forall|i: int| 0 <= i < s.len() ==> entrada_valida(#[trigger] s[i]),
    ensures
        lineas(cuerpo(s)) == lineas_de(s) + seq![Seq::<char>::empty()],
    decreases s.len(),
{
    if s.len() == 0 {
        lema_lineas_sin_salto(cuerpo(s));
        assert(cuerpo(s) =~= Seq::<char>::empty());
        assert(lineas_de(s) + seq![Seq::<char>::empty()] =~= seq![Seq::<char>::empty()]);
    } else {
        let resto = s.drop_first();
        assert forall|i: int| 0 <= i < resto.len() implies entrada_valida(#[trigger] resto[i]) by {
            assert(resto[i] == s[i + 1]);
        }
        lema_lineas_del_cuerpo(resto);
        assert(entrada_valida(s[0]));
        lema_linea_ida_y_vuelta(s[0]);
        lema_lineas_partir(linea_de(s[0]), cuerpo(resto));
        assert(lineas_de(s) + seq![Seq::<char>::empty()] =~= seq![linea_de(s[0])] + (lineas_de(
            resto,
        ) + seq![Seq::<char>::empty()]));
    }
}

proof fn lema_entradas_de_lineas(s: Seq<(Origen, Destino)>)
    requires
        forall|i: int| 0 <= i < s.len() ==> entrada_valida(#[trigger] s[i]),
    ensures
        entradas_de_lineas(lineas_de(s) + seq![Seq::<char>::empty()]) == Ok::<
            Seq<(Origen, Destino)>,
            Seq<char>,
        >(s),
    decreases s.len(),
{
    let ls = lineas_de(s) + seq![Seq::<char>::empty()];
    if s.len() == 0 {
        lema_recortar_vacio();
        assert(ls[0] == Seq::<char>::empty());
        assert(ls.drop_first() =~= Seq::<Seq<char>>::empty());
        assert(entradas_de_lineas(ls.drop_first()) == Ok::<Seq<(Origen, Destino)>, Seq<char>>(
            seq![],
        ));
        assert(s =~= Seq::<(Origen, Destino)>::empty());
    } else {
        let resto = s.drop_first();
        assert forall|i: int| 0 <= i < resto.len() implies entrada_valida(#[trigger] resto[i]) by {
            assert(resto[i] == s[i + 1]);
        }
        lema_entradas_de_lineas(resto);
        assert(entrada_valida(s[0]));
        lema_linea_ida_y_vuelta(s[0]);
        assert(ls[0] == linea_de(s[0]));
        assert(ls.drop_first() =~= lineas_de(resto) + seq![Seq::<char>::empty()]);
        assert(recortar(ls[0]) == linea_de(s[0]));
        assert(!linea_ignorada(recortar(ls[0])));
        assert(entrada_de_linea(recortar(ls[0])) == Ok::<(Origen, Destino), Seq<char>>(s[0]));
        assert(seq![s[0]] + resto =~= s);
    }
}

/// Ley: unos remapeos válidos, escritos como `teclas.conf` y vueltos a leer,
/// son los mismos.
pub proof fn ley_texto_ida_y_vuelta(s: Seq<(Origen, Destino)>)
    requires
        remapeos_validos(s),
    ensures
        remapeos_de_texto(texto_de_remapeos(s)) == Ok::<Seq<(Origen, Destino)>, Seq<char>>(s),
{
    let c = cabecera();
    assert forall|j: int| 0 <= j < c.len() implies c[j] != '\n' by {
    }
    lema_lineas_partir(c, cuerpo(s));
    assert(texto_de_remapeos(s) == c + seq!['\n'] + cuerpo(s));
    lema_lineas_del_cuerpo(s);
    lema_recortar_sin_bordes(c);
    let ls = seq![c] + (lineas_de(s) + seq![Seq::<char>::empty()]);
    assert(ls[0] == c);
    assert(ls.drop_first() =~= lineas_de(s) + seq![Seq::<char>::empty()]);
    lema_entradas_de_lineas(s);
    lema_validar_unicos(s);
}

proof fn lema_entradas_de_pares(s: Seq<(Origen, Destino)>)
    requires
        forall|i: int| 0 <= i < s.len() ==> entrada_valida(#[trigger] s[i]),
    ensures
        entradas_de_pares(pares_de_remapeos(s)) == Ok::<Seq<(Origen, Destino)>, Seq<char>>(s),
    decreases s.len(),
{
    let ps = pares_de_remapeos(s);
    if s.len() == 0 {
        assert(s =~= Seq::<(Origen, Destino)>::empty());
    } else {
        let resto = s.drop_first();
        assert forall|i: int| 0 <= i < resto.len() implies entrada_valida(#[trigger] resto[i]) by {
            assert(resto[i] == s[i + 1]);
        }
        lema_entradas_de_pares(resto);
        assert(entrada_valida(s[0]));
        lema_origen_ida_y_vuelta(s[0].0);
        lema_destino_ida_y_vuelta(s[0].1);
        lema_campo_recortado(texto_de_origen(s[0].0));
        lema_campo_recortado(texto_de_destino(s[0].1));
        let t = texto_de_destino(s[0].1);
        assert(!t.contains('\n')) by {
            if t.contains('\n') {
                let k = choose|k: int| 0 <= k < t.len() && t[k] == '\n';
                assert(caracter_de_campo(t[k]));
            }
        }
        assert(ps.drop_first() =~= pares_de_remapeos(resto));
        assert(seq![s[0]] + resto =~= s);
    }
}

/// Ley: unos remapeos válidos, enviados como entradas de D-Bus y vueltos a
/// leer, son los mismos.
pub proof fn ley_entradas_ida_y_vuelta(s: Seq<(Origen, Destino)>)
    requires
        remapeos_validos(s),
    ensures
        remapeos_de_pares(pares_de_remapeos(s)) == Ok::<Seq<(Origen, Destino)>, Seq<char>>(s),
{
    lema_entradas_de_pares(s);
    lema_validar_unicos(s);
}

proof fn lema_tecla_leida_valida(t: Seq<char>)
    ensures
        tecla_desde_texto(t) matches Ok(c) ==> codigo_valido(c),
{
    lema_codigo_de_nombre(t);
}

proof fn lema_entrada_leida_valida(o: Result<Origen, Seq<char>>, d: Result<Destino, Seq<char>>, t: Seq<char>, u: Seq<char>)
    requires
        o == origen_desde_texto(t),
        d == destino_desde_texto(u),
    ensures
        o matches Ok(Origen::Evdev(c)) ==> codigo_valido(c),
        d matches Ok(Destino::Tecla(c)) ==> codigo_valido(c),
{
    lema_tecla_leida_valida(t);
    lema_tecla_leida_valida(u);
}

proof fn lema_linea_leida_valida(l: Seq<char>)
    ensures
        entrada_de_linea(l) matches Ok(e) ==> entrada_valida(e),
{
    if let Some(i) = primera_posicion(l, '=') {
        lema_entrada_leida_valida(
            origen_desde_texto(recortar(l.take(i))),
            destino_desde_texto(recortar(l.skip(i + 1))),
            recortar(l.take(i)),
            recortar(l.skip(i + 1)),
        );
    }
}

proof fn lema_lineas_leidas_validas(ls: Seq<Seq<char>>)
    ensures
        entradas_de_lineas(ls) matches Ok(s) ==> forall|i: int|
            0 <= i < s.len() ==> entrada_valida(#[trigger] s[i]),
    decreases ls.len(),
{
    if ls.len() > 0 {
        lema_lineas_leidas_validas(ls.drop_first());
        let l = recortar(ls[0]);
        if !linea_ignorada(l) {
            if let Some(i) = primera_posicion(l, '=') {
                lema_entrada_leida_valida(
                    origen_desde_texto(recortar(l.take(i))),
                    destino_desde_texto(recortar(l.skip(i + 1))),
                    recortar(l.take(i)),
                    recortar(l.skip(i + 1)),
                );
            }
            if let Ok(e) = entrada_de_linea(l) {
                if let Ok(resto) = entradas_de_lineas(ls.drop_first()) {
                    let s = seq![e] + resto;
                    assert forall|i: int| 0 <= i < s.len() implies entrada_valida(#[trigger] s[i]) by {
                        if i > 0 {
                            assert(s[i] == resto[i - 1]);
                        }
                    }
                }
            }
        }
    }
}

proof fn lema_pares_leidos_validos(ps: Seq<(Seq<char>, Seq<char>)>)
    ensures
        entradas_de_pares(ps) matches Ok(s) ==> forall|i: int|
            0 <= i < s.len() ==> entrada_valida(#[trigger] s[i]),
    decreases ps.len(),
{
    if ps.len() > 0 {
        lema_pares_leidos_validos(ps.drop_first());
        lema_entrada_leida_valida(
            origen_desde_texto(recortar(ps[0].0)),
            destino_desde_texto(recortar(ps[0].1)),
            recortar(ps[0].0),
            recortar(ps[0].1),
        );
        if let Ok(e) = entrada_de_par(ps[0]) {
            if let Ok(resto) = entradas_de_pares(ps.drop_first()) {
                let s = seq![e] + resto;
                assert forall|i: int| 0 <= i < s.len() implies entrada_valida(#[trigger] s[i]) by {
                    if i > 0 {
                        assert(s[i] == resto[i - 1]);
                    }
                }
            }
        }
    }
}

/// Ley: lo que se acepta del texto de `teclas.conf` son remapeos válidos.
pub proof fn ley_texto_leido_valido(t: Seq<char>)
    ensures
        remapeos_de_texto(t) matches Ok(s) ==> remapeos_validos(s),
{
    lema_lineas_leidas_validas(lineas(t));
    if let Ok(s) = entradas_de_lineas(lineas(t)) {
        lema_validar_unicos(s);
    }
}

/// Ley: lo que se acepta de las entradas de D-Bus son remapeos válidos.
pub proof fn ley_entradas_leidas_validas(ps: Seq<(Seq<char>, Seq<char>)>)
    ensures
        remapeos_de_pares(ps) matches Ok(s) ==> remapeos_validos(s),
{
    lema_pares_leidos_validos(ps);
    if let Ok(s) = entradas_de_pares(ps) {
        lema_validar_unicos(s);
    }
}

/// Ley: sin orígenes repetidos, el destino de un origen es el de su única
/// entrada.
pub proof fn ley_buscar_en_remapeos_validos(s: Seq<(Origen, Destino)>, o: Origen, d: Destino)
    requires
        origenes_unicos(s),
    ensures
        destino_de(s, o) == Some(d) <==> s.contains((o, d)),
{
    if s.contains((o, d)) {
        let i = choose|i: int| 0 <= i < s.len() && s[i] == (o, d);
        assert forall|j: int| 0 <= j < i implies s[j].0 != o by {
            assert(s[j].0 != s[i].0);
        }
        assert(es_primera_entrada(s, o, i));
        let k = choose|k: int| es_primera_entrada(s, o, k);
        lema_primera_entrada_unica(s, o, i, k);
    }
    if destino_de(s, o) == Some(d) {
        let k = choose|k: int| es_primera_entrada(s, o, k);
        assert(s[k] == (o, d));
    }
}

proof fn lema_hay_primera(s: Seq<char>, c: char, k: int)
    requires
        0 <= k < s.len(),
        s[k] == c,
    ensures
        exists|i: int| es_primera(s, c, i),
    decreases k,
{
    if exists|j: int| 0 <= j < k && s[j] == c {
        let j = choose|j: int| 0 <= j < k && s[j] == c;
        lema_hay_primera(s, c, j);
    } else {
        assert(es_primera(s, c, k));
    }
}

/// Las líneas de `a + t`, si `a` está vacío o acaba en salto: las de `a`
/// menos el trozo vacío del final, y luego las de `t`.
proof fn lema_lineas_prefijo(a: Seq<char>, t: Seq<char>)
    requires
        a.len() == 0 || a.last() == '\n',
    ensures
        lineas(a + t) == lineas(a).drop_last() + lineas(t),
    decreases a.len(),
{
    if a.len() == 0 {
        lema_lineas_sin_salto(a);
        assert(a + t =~= t);
        assert(lineas(a).drop_last() =~= Seq::<Seq<char>>::empty());
        assert(lineas(a).drop_last() + lineas(t) =~= lineas(t));
    } else {
        lema_hay_primera(a, '\n', a.len() - 1);
        let i = choose|i: int| es_primera(a, '\n', i);
        let x = a.take(i);
        let r = a.skip(i + 1);
        assert(a =~= x + seq!['\n'] + r);
        assert(a + t =~= x + seq!['\n'] + (r + t));
        assert forall|j: int| 0 <= j < x.len() implies x[j] != '\n' by {
            assert(x[j] == a[j]);
        }
        lema_lineas_partir(x, r + t);
        lema_lineas_partir(x, r);
        if r.len() > 0 {
            assert(r.last() == a.last());
        }
        lema_lineas_prefijo(r, t);
        assert(lineas(a).drop_last() =~= seq![x] + lineas(r).drop_last());
        assert(lineas(a + t) =~= seq![x] + (lineas(r).drop_last() + lineas(t)));
    }
}

/// Quitar de unas líneas una que, recortada, está vacía o empieza por `#` no
/// cambia las entradas que dan.
proof fn lema_quitar_comentario(p: Seq<Seq<char>>, l: Seq<char>, q: Seq<Seq<char>>)
    requires
        recortar(l).len() == 0 || recortar(l)[0] == '#',
    ensures
        entradas_de_lineas(p + seq![l] + q) == entradas_de_lineas(p + q),
    decreases p.len(),
{
    let con = p + seq![l] + q;
    let sin = p + q;
    if p.len() == 0 {
        assert(con[0] == l);
        assert(con.drop_first() =~= q);
        assert(sin =~= q);
    } else {
        lema_quitar_comentario(p.drop_first(), l, q);
        assert(con[0] == p[0]);
        assert(sin[0] == p[0]);
        assert(con.drop_first() =~= p.drop_first() + seq![l] + q);
        assert(sin.drop_first() =~= p.drop_first() + q);
    }
}

/// Ley: en `teclas.conf` una línea que, recortada, está vacía o empieza por
/// `#` no cuenta, diga lo que diga tras el `#`: quitarla de cualquier texto, en
/// cualquier sitio, no cambia lo que se lee de él.
pub proof fn ley_comentarios(a: Seq<char>, linea: Seq<char>, b: Seq<char>)
    requires
        a.len() == 0 || a.last() == '\n',
        !linea.contains('\n'),
        recortar(linea).len() == 0 || recortar(linea)[0] == '#',
    ensures
        remapeos_de_texto(a + linea + seq!['\n'] + b) == remapeos_de_texto(a + b),
{
    let t = linea + seq!['\n'] + b;
    assert(a + linea + seq!['\n'] + b =~= a + t);
    assert forall|j: int| 0 <= j < linea.len() implies linea[j] != '\n' by {
        if linea[j] == '\n' {
            assert(linea.contains(linea[j]));
        }
    }
    lema_lineas_partir(linea, b);
    lema_lineas_prefijo(a, t);
    lema_lineas_prefijo(a, b);
    let p = lineas(a).drop_last();
    assert(lineas(a + t) =~= p + seq![linea] + lineas(b));
    lema_quitar_comentario(p, linea, lineas(b));
}

} // verus!
