//! Los nodos de `/dev/input` ya mirados, sean teclados o no, para no
//! reabrirlos en cada vuelta del sondeo. Al desaparecer uno se olvida: el
//! número se reutiliza.
use vstd::prelude::*;

use crate::servicio::{decidir_nodo, PasoNodo};

verus! {

/// Lo que se supo al intentar abrir un nodo que no se había visto.
pub enum Apertura {
    /// No se pudo abrir: se prueba en la siguiente vuelta.
    NoSeAbre,
    /// Se abrió: si es un teclado y si tiene alguna tecla abajo.
    Abierto { teclado: bool, tecla_abajo: bool },
}

/// El paso de un nodo no visto: los vistos que deja y si se captura. Un nodo
/// que no se abre o que tiene una tecla abajo se deja para la siguiente
/// vuelta; uno que no es un teclado se recuerda sin capturarlo; un teclado sin
/// teclas abajo se recuerda y se captura.
pub open spec fn paso_nodo(v: Set<Seq<u8>>, ruta: Seq<u8>, a: Apertura) -> (Set<Seq<u8>>, bool) {
    match a {
        Apertura::NoSeAbre => (v, false),
        Apertura::Abierto { teclado, tecla_abajo } => if !teclado {
            (v.insert(ruta), false)
        } else if tecla_abajo {
            (v, false)
        } else {
            (v.insert(ruta), true)
        },
    }
}

/// Las rutas de una lista, como secuencias de bytes.
pub open spec fn rutas_de(v: Seq<Vec<u8>>) -> Seq<Seq<u8>> {
    Seq::new(v.len(), |i: int| v[i]@)
}

/// Ninguna ruta aparece dos veces.
pub open spec fn sin_repetidas(s: Seq<Seq<u8>>) -> bool {
    forall|i: int, j: int| 0 <= i < j < s.len() ==> s[i] != s[j]
}

/// Un conjunto de rutas sin repetir.
pub struct Vistos {
    rutas: Vec<Vec<u8>>,
}

impl Vistos {
    #[verifier::type_invariant]
    spec fn bien_formado(self) -> bool {
        sin_repetidas(rutas_de(self.rutas@))
    }

    /// Las rutas guardadas.
    pub closed spec fn rutas(self) -> Set<Seq<u8>> {
        rutas_de(self.rutas@).to_set()
    }

    /// Ninguna vista todavía.
    pub fn nuevo() -> (r: Self)
        ensures
            r.rutas() == Set::<Seq<u8>>::empty(),
    {
        let r = Vistos { rutas: Vec::new() };
        assert(rutas_de(r.rutas@).to_set() =~= Set::<Seq<u8>>::empty());
        r
    }

    /// Si `ruta` ya se miró.
    pub fn contiene(&self, ruta: &[u8]) -> (r: bool)
        ensures
            r == self.rutas().contains(ruta@),
    {
        let ghost s = rutas_de(self.rutas@);
        let mut i: usize = 0;
        while i < self.rutas.len()
            invariant
                i <= self.rutas@.len(),
                s == rutas_de(self.rutas@),
                forall|j: int| 0 <= j < i ==> s[j] != ruta@,
            decreases self.rutas@.len() - i,
        {
            if iguales(self.rutas[i].as_slice(), ruta) {
                assert(s[i as int] == ruta@);
                assert(s.to_set().contains(s[i as int]));
                return true;
            }
            i = i + 1;
        }
        assert(!s.contains(ruta@));
        false
    }

    /// Se guarda `ruta` (si ya estaba, no cambia nada).
    pub fn recordar(&mut self, ruta: Vec<u8>)
        ensures
            final(self).rutas() == old(self).rutas().insert(ruta@),
    {
        proof {
            use_type_invariant(&*self);
        }
        if self.contiene(ruta.as_slice()) {
            assert(old(self).rutas().insert(ruta@) =~= old(self).rutas());
            return;
        }
        let ghost antes = rutas_de(self.rutas@);
        let mut rutas: Vec<Vec<u8>> = Vec::new();
        std::mem::swap(&mut rutas, &mut self.rutas);
        proof {
            assert(rutas_de(rutas@) == antes);
        }
        rutas.push(ruta);
        proof {
            let s = rutas_de(rutas@);
            assert(s =~= antes.push(ruta@));
            assert(!antes.contains(ruta@)) by {
                assert(!antes.to_set().contains(ruta@));
            }
            assert(s.to_set() =~= antes.to_set().insert(ruta@)) by {
                assert forall|x: Seq<u8>| s.contains(x) <==> (antes.contains(x) || x == ruta@) by {
                    if s.contains(x) {
                        let k = choose|k: int| 0 <= k < s.len() && s[k] == x;
                        if k < antes.len() {
                            assert(antes[k] == x);
                        }
                    }
                    if antes.contains(x) {
                        let k = choose|k: int| 0 <= k < antes.len() && antes[k] == x;
                        assert(s[k] == x);
                    }
                    if x == ruta@ {
                        assert(s[antes.len() as int] == x);
                    }
                }
            }
            assert forall|i: int, j: int| 0 <= i < j < s.len() implies s[i] != s[j] by {
                if j == antes.len() {
                    assert(antes[i] == s[i]);
                    assert(antes.contains(s[i]));
                }
            }
        }
        self.rutas = rutas;
    }

    /// Tras intentar abrir `ruta`, que no se había visto: si hay que
    /// capturarla, recordándola o no según `paso_nodo`.
    pub fn tras_abrir(&mut self, ruta: Vec<u8>, apertura: Apertura) -> (r: bool)
        ensures
            (final(self).rutas(), r) == paso_nodo(old(self).rutas(), ruta@, apertura),
    {
        match apertura {
            Apertura::NoSeAbre => false,
            Apertura::Abierto { teclado, tecla_abajo } => match decidir_nodo(teclado, tecla_abajo) {
                PasoNodo::Descartar => {
                    self.recordar(ruta);
                    false
                },
                PasoNodo::Esperar => false,
                PasoNodo::Capturar => {
                    self.recordar(ruta);
                    true
                },
            },
        }
    }

    /// Se olvida lo que ya no está entre `presentes`.
    pub fn retener(&mut self, presentes: &Vec<Vec<u8>>)
        ensures
            final(self).rutas() == old(self).rutas().filter(
                |r: Seq<u8>| rutas_de(presentes@).contains(r),
            ),
    {
        proof {
            use_type_invariant(&*self);
        }
        let ghost antes = rutas_de(self.rutas@);
        let ghost p = rutas_de(presentes@);
        let mut rutas: Vec<Vec<u8>> = Vec::new();
        std::mem::swap(&mut rutas, &mut self.rutas);
        proof {
            assert(rutas_de(rutas@) == antes);
        }
        let mut quedan: Vec<Vec<u8>> = Vec::new();
        let mut i: usize = 0;
        while i < rutas.len()
            invariant
                i <= rutas@.len(),
                antes == rutas_de(rutas@),
                p == rutas_de(presentes@),
                sin_repetidas(antes),
                sin_repetidas(rutas_de(quedan@)),
                forall|x: Seq<u8>|
                    rutas_de(quedan@).contains(x) <==> (exists|k: int|
                        0 <= k < i && antes[k] == x && p.contains(x)),
            decreases rutas@.len() - i,
        {
            let ghost q = rutas_de(quedan@);
            if esta_en(presentes, rutas[i].as_slice()) {
                let ruta = rutas[i].clone();
                quedan.push(ruta);
                proof {
                    let q2 = rutas_de(quedan@);
                    assert(q2 =~= q.push(antes[i as int]));
                    assert forall|x: Seq<u8>|
                        q2.contains(x) <==> (exists|k: int|
                            0 <= k < i + 1 && antes[k] == x && p.contains(x)) by {
                        if q2.contains(x) {
                            let m = choose|m: int| 0 <= m < q2.len() && q2[m] == x;
                            if m < q.len() {
                                assert(q[m] == x);
                                assert(q.contains(x));
                            } else {
                                assert(antes[i as int] == x);
                            }
                        }
                        if exists|k: int| 0 <= k < i + 1 && antes[k] == x && p.contains(x) {
                            let k = choose|k: int| 0 <= k < i + 1 && antes[k] == x && p.contains(x);
                            if k < i {
                                assert(q.contains(x));
                                let m = choose|m: int| 0 <= m < q.len() && q[m] == x;
                                assert(q2[m] == x);
                            } else {
                                assert(q2[q.len() as int] == x);
                            }
                        }
                    }
                    assert forall|a: int, b: int| 0 <= a < b < q2.len() implies q2[a] != q2[b] by {
                        if b == q.len() {
                            assert(q[a] == q2[a]);
                            assert(q.contains(q2[a]));
                            let k = choose|k: int| 0 <= k < i && antes[k] == q2[a] && p.contains(q2[a]);
                            assert(antes[k] != antes[i as int]);
                        }
                    }
                }
            } else {
                proof {
                    assert forall|x: Seq<u8>|
                        q.contains(x) <==> (exists|k: int|
                            0 <= k < i + 1 && antes[k] == x && p.contains(x)) by {
                        if exists|k: int| 0 <= k < i + 1 && antes[k] == x && p.contains(x) {
                            let k = choose|k: int| 0 <= k < i + 1 && antes[k] == x && p.contains(x);
                            if k == i {
                                assert(!p.contains(antes[i as int]));
                            }
                            assert(exists|k: int| 0 <= k < i && antes[k] == x && p.contains(x));
                        }
                    }
                }
            }
            i = i + 1;
        }
        proof {
            let q = rutas_de(quedan@);
            let esperado = antes.to_set().filter(|r: Seq<u8>| p.contains(r));
            assert forall|x: Seq<u8>| q.to_set().contains(x) <==> esperado.contains(x) by {
                if antes.contains(x) && p.contains(x) {
                    let k = choose|k: int| 0 <= k < antes.len() && antes[k] == x;
                    assert(exists|k: int| 0 <= k < i && antes[k] == x && p.contains(x));
                }
            }
            assert(q.to_set() =~= esperado);
        }
        self.rutas = quedan;
    }
}

/// Dos rutas iguales byte a byte.
fn iguales(a: &[u8], b: &[u8]) -> (r: bool)
    ensures
        r == (a@ == b@),
{
    if a.len() != b.len() {
        return false;
    }
    let mut i: usize = 0;
    while i < a.len()
        invariant
            i <= a@.len(),
            a@.len() == b@.len(),
            forall|j: int| 0 <= j < i ==> a@[j] == b@[j],
        decreases a@.len() - i,
    {
        if a[i] != b[i] {
            return false;
        }
        i = i + 1;
    }
    assert(a@ =~= b@);
    true
}

/// Si `ruta` está entre `rutas`.
fn esta_en(rutas: &Vec<Vec<u8>>, ruta: &[u8]) -> (r: bool)
    ensures
        r == rutas_de(rutas@).contains(ruta@),
{
    let ghost s = rutas_de(rutas@);
    let mut i: usize = 0;
    while i < rutas.len()
        invariant
            i <= rutas@.len(),
            s == rutas_de(rutas@),
            forall|j: int| 0 <= j < i ==> s[j] != ruta@,
        decreases rutas@.len() - i,
    {
        if iguales(rutas[i].as_slice(), ruta) {
            assert(s[i as int] == ruta@);
            return true;
        }
        i = i + 1;
    }
    false
}

// ---------------------------------------------------------------------------
// Las vueltas del sondeo

/// Los nodos presentes de una vuelta, en orden, sobre los vistos `v`: se
/// salta cada nodo ya visto y a cada uno nuevo se le da su paso, con lo que
/// se supo al abrirlo (`abrir`). Los vistos que deja y los nodos capturados.
pub open spec fn recorrer_nodos(
    v: Set<Seq<u8>>,
    nodos: Seq<Seq<u8>>,
    abrir: spec_fn(Seq<u8>) -> Apertura,
) -> (Set<Seq<u8>>, Set<Seq<u8>>)
    decreases nodos.len(),
{
    if nodos.len() == 0 {
        (v, Set::empty())
    } else {
        let (v1, capturados) = recorrer_nodos(v, nodos.drop_last(), abrir);
        let ruta = nodos.last();
        if v1.contains(ruta) {
            (v1, capturados)
        } else {
            let (v2, capturar) = paso_nodo(v1, ruta, abrir(ruta));
            (v2, if capturar {
                capturados.insert(ruta)
            } else {
                capturados
            })
        }
    }
}

/// Una vuelta del sondeo: se olvida lo que ya no está entre `presentes` y se
/// recorren los presentes.
pub open spec fn vuelta(
    v: Set<Seq<u8>>,
    presentes: Seq<Seq<u8>>,
    abrir: spec_fn(Seq<u8>) -> Apertura,
) -> (Set<Seq<u8>>, Set<Seq<u8>>) {
    recorrer_nodos(v.filter(|r: Seq<u8>| presentes.contains(r)), presentes, abrir)
}

/// Vueltas seguidas desde nada visto, cada una con sus nodos presentes y lo
/// que se supo al abrirlos: los vistos al final y lo capturado en cada una.
pub open spec fn vueltas(rondas: Seq<(Seq<Seq<u8>>, spec_fn(Seq<u8>) -> Apertura)>) -> (
    Set<Seq<u8>>,
    Seq<Set<Seq<u8>>>,
)
    decreases rondas.len(),
{
    if rondas.len() == 0 {
        (Set::empty(), seq![])
    } else {
        let (v, capturas) = vueltas(rondas.drop_last());
        let (v2, capturados) = vuelta(v, rondas.last().0, rondas.last().1);
        (v2, capturas.push(capturados))
    }
}

proof fn lema_recorrer_nodos(v: Set<Seq<u8>>, nodos: Seq<Seq<u8>>, abrir: spec_fn(Seq<u8>) -> Apertura)
    requires
        nodos.no_duplicates(),
    ensures
        ({
            let (v2, cap) = recorrer_nodos(v, nodos, abrir);
            &&& forall|r: Seq<u8>| #[trigger] v.contains(r) ==> v2.contains(r)
            &&& forall|r: Seq<u8>| #[trigger] v2.contains(r) ==> v.contains(r) || nodos.contains(r)
            &&& forall|r: Seq<u8>|
                #[trigger] cap.contains(r) ==> v2.contains(r) && nodos.contains(r) && !v.contains(r)
            &&& forall|r: Seq<u8>|
                nodos.contains(r) && !v.contains(r) && (abrir(r) matches Apertura::Abierto {
                    teclado,
                    ..
                } && !teclado) ==> #[trigger] v2.contains(r)
        }),
    decreases nodos.len(),
{
    if nodos.len() > 0 {
        let antes = nodos.drop_last();
        let ruta = nodos.last();
        assert(antes.no_duplicates()) by {
            assert forall|i: int, j: int|
                0 <= i < antes.len() && 0 <= j < antes.len() && i != j implies antes[i] != antes[j] by {
                assert(antes[i] == nodos[i]);
                assert(antes[j] == nodos[j]);
            }
        }
        assert(!antes.contains(ruta)) by {
            if antes.contains(ruta) {
                let i = choose|i: int| 0 <= i < antes.len() && antes[i] == ruta;
                assert(nodos[i] == nodos[nodos.len() - 1]);
            }
        }
        lema_recorrer_nodos(v, antes, abrir);
        assert forall|r: Seq<u8>| #[trigger] nodos.contains(r) implies antes.contains(r) || r == ruta by {
            let i = choose|i: int| 0 <= i < nodos.len() && nodos[i] == r;
            if i < nodos.len() - 1 {
                assert(antes[i] == r);
            }
        }
        assert forall|r: Seq<u8>| #[trigger] antes.contains(r) implies nodos.contains(r) by {
            let i = choose|i: int| 0 <= i < antes.len() && antes[i] == r;
            assert(nodos[i] == r);
        }
        assert(nodos.contains(ruta)) by {
            assert(nodos[nodos.len() - 1] == ruta);
        }
        let (v1, c1) = recorrer_nodos(v, antes, abrir);
        let (v2, cap) = recorrer_nodos(v, nodos, abrir);
        if v1.contains(ruta) {
            assert(v2 == v1 && cap == c1);
            assert(v.contains(ruta));
        } else {
            let (v3, capturar) = paso_nodo(v1, ruta, abrir(ruta));
            assert(v2 == v3);
            assert(cap == if capturar {
                c1.insert(ruta)
            } else {
                c1
            });
            assert(!v.contains(ruta));
            assert forall|r: Seq<u8>| #[trigger] v3.contains(r) implies v1.contains(r) || r == ruta by {}
            assert(capturar ==> v3.contains(ruta));
            assert forall|r: Seq<u8>| v1.contains(r) implies #[trigger] v3.contains(r) by {}
        }
    }
}

/// Ley de una vuelta del sondeo, con nodos presentes sin repetir:
/// - tras ella solo se recuerdan nodos presentes (el que desaparece se olvida
///   y, si vuelve, se mira de nuevo);
/// - un nodo que ya se había visto y sigue presente ni se abre ni se captura, y
///   se sigue recordando;
/// - lo capturado estaba presente, no se había visto, y queda recordado;
/// - un nodo nuevo que se abre y no es un teclado queda recordado, y no se
///   vuelve a abrir mientras siga presente.
pub proof fn ley_vuelta(v: Set<Seq<u8>>, presentes: Seq<Seq<u8>>, abrir: spec_fn(Seq<u8>) -> Apertura, p: Seq<u8>)
    requires
        presentes.no_duplicates(),
    ensures
        ({
            let (v2, cap) = vuelta(v, presentes, abrir);
            &&& v2.contains(p) ==> presentes.contains(p)
            &&& v.contains(p) && presentes.contains(p) ==> v2.contains(p) && !cap.contains(p)
            &&& cap.contains(p) ==> v2.contains(p) && presentes.contains(p) && !v.contains(p)
            &&& presentes.contains(p) && !v.contains(p) && (abrir(p) matches Apertura::Abierto {
                teclado,
                ..
            } && !teclado) ==> v2.contains(p)
        }),
{
    let v0 = v.filter(|r: Seq<u8>| presentes.contains(r));
    lema_recorrer_nodos(v0, presentes, abrir);
    let (v2, cap) = vuelta(v, presentes, abrir);
    if v2.contains(p) {
        assert(v0.contains(p) || presentes.contains(p));
    }
    if v.contains(p) && presentes.contains(p) {
        assert(v0.contains(p));
    }
    if cap.contains(p) && v.contains(p) {
        assert(v0.contains(p));
    }
    if presentes.contains(p) && !v.contains(p) {
        assert(!v0.contains(p));
    }
}

proof fn lema_vueltas_ultima(rondas: Seq<(Seq<Seq<u8>>, spec_fn(Seq<u8>) -> Apertura)>)
    requires
        rondas.len() > 0,
    ensures
        vueltas(rondas).1.len() == rondas.len(),
        vueltas(rondas).0 == vuelta(
            vueltas(rondas.drop_last()).0,
            rondas.last().0,
            rondas.last().1,
        ).0,
        vueltas(rondas).1[rondas.len() - 1] == vuelta(
            vueltas(rondas.drop_last()).0,
            rondas.last().0,
            rondas.last().1,
        ).1,
{
    lema_vueltas_prefijo(rondas.drop_last(), 0);
}

proof fn lema_vueltas_prefijo(rondas: Seq<(Seq<Seq<u8>>, spec_fn(Seq<u8>) -> Apertura)>, m: int)
    requires
        0 <= m <= rondas.len(),
    ensures
        vueltas(rondas).1.len() == rondas.len(),
        vueltas(rondas.take(m)).1 == vueltas(rondas).1.take(m),
    decreases rondas.len(),
{
    if rondas.len() > 0 {
        let antes = rondas.drop_last();
        if m == rondas.len() {
            assert(rondas.take(m) =~= rondas);
            lema_vueltas_prefijo(antes, 0);
        } else {
            lema_vueltas_prefijo(antes, m);
            assert(rondas.take(m) =~= antes.take(m));
        }
        assert(vueltas(rondas).1 =~= vueltas(antes).1.push(vueltas(rondas).1.last()));
    } else {
        assert(rondas.take(m) =~= rondas);
    }
}

/// Ley del sondeo: en vueltas seguidas, cada una con sus nodos presentes sin
/// repetir, un nodo capturado en la vuelta `i` no se vuelve a capturar en la
/// `j` si estuvo presente en todas las vueltas de en medio; solo al
/// desaparecer en alguna se olvida y puede capturarse otra vez.
pub proof fn ley_se_captura_una_vez(
    rondas: Seq<(Seq<Seq<u8>>, spec_fn(Seq<u8>) -> Apertura)>,
    p: Seq<u8>,
    i: int,
    j: int,
)
    requires
        0 <= i < j < rondas.len(),
        forall|k: int| 0 <= k < rondas.len() ==> (#[trigger] rondas[k]).0.no_duplicates(),
        forall|k: int| i < k <= j ==> (#[trigger] rondas[k]).0.contains(p),
        vueltas(rondas).1[i].contains(p),
    ensures
        !vueltas(rondas).1[j].contains(p),
{
    lema_vueltas_prefijo(rondas, j + 1);
    lema_capturado_sigue_visto(rondas.take(j + 1), p, i, j);
    let previas = rondas.take(j);
    let ultimas = rondas.take(j + 1);
    assert(ultimas.drop_last() =~= previas);
    assert(ultimas.last() == rondas[j]);
    lema_vueltas_ultima(ultimas);
    ley_vuelta(vueltas(previas).0, rondas[j].0, rondas[j].1, p);
}

/// Tras capturarlo en la vuelta `i`, el nodo sigue recordado al empezar la
/// vuelta `j` si estuvo presente en todas las de en medio.
proof fn lema_capturado_sigue_visto(
    rondas: Seq<(Seq<Seq<u8>>, spec_fn(Seq<u8>) -> Apertura)>,
    p: Seq<u8>,
    i: int,
    j: int,
)
    requires
        0 <= i < j < rondas.len(),
        forall|k: int| 0 <= k < rondas.len() ==> (#[trigger] rondas[k]).0.no_duplicates(),
        forall|k: int| i < k <= j ==> (#[trigger] rondas[k]).0.contains(p),
        vueltas(rondas).1[i].contains(p),
    ensures
        vueltas(rondas.take(j)).0.contains(p),
    decreases j - i,
{
    lema_vueltas_prefijo(rondas, j);
    let previas = rondas.take(j);
    let antes = rondas.take(j - 1);
    assert(previas.drop_last() =~= antes);
    assert(previas.last() == rondas[j - 1]);
    if j - 1 == i {
        lema_vueltas_prefijo(rondas, i + 1);
        assert(vueltas(previas).1[i] == vueltas(rondas).1[i]);
        lema_vueltas_ultima(previas);
        ley_vuelta(vueltas(antes).0, rondas[i].0, rondas[i].1, p);
    } else {
        lema_capturado_sigue_visto(rondas, p, i, j - 1);
        assert(rondas[j - 1].0.contains(p));
        lema_vueltas_ultima(previas);
        ley_vuelta(vueltas(antes).0, rondas[j - 1].0, rondas[j - 1].1, p);
    }
}

} // verus!
