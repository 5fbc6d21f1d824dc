//! La traducción de cada evento de un teclado físico a los que salen por el
//! teclado virtual.
//!
//! **Copilot no es una tecla.** El firmware manda `Meta` izquierda, `Mayús`
//! izquierda y `F23`, en ese orden, y las suelta al revés. Cuando llega la F23
//! las dos primeras ya han salido por el teclado virtual: se sueltan a mano en
//! ese momento y se tragan sus sueltas físicas.
use vstd::prelude::*;

use crate::teclas::{destino_de, Destino, Origen, Remapeos};

verus! {

pub const KEY_LEFTSHIFT: u32 = 42;

pub const KEY_F23: u32 = 193;

pub const KEY_LEFTMETA: u32 = 125;

/// Lo que el traductor recuerda entre eventos.
pub struct EstadoTraductor {
    /// Teclas físicas pulsadas.
    pub fisicas: Seq<u32>,
    /// Origen pulsado y lo que salió al pulsarlo (`None`: no salió nada).
    pub pulsadas: Seq<(u32, Option<u32>)>,
    /// Sueltas físicas que ya no deben salir.
    pub tragar: Seq<u32>,
}

/// Lo que hay que recordar entre eventos de un teclado para que ninguna tecla
/// se quede trabada.
#[derive(Debug)]
pub struct Traductor {
    /// Teclas físicas pulsadas. Solo importan Meta y Mayús, para reconocer el
    /// acorde de Copilot.
    fisicas: Vec<u32>,
    /// Origen pulsado y el destino con el que se pulsó. La suelta usa este y no
    /// el mapa actual: si la configuración cambia con la tecla abajo, se suelta
    /// lo que se pulsó. `None` es que la pulsación no salió.
    pulsadas: Vec<(u32, Option<u32>)>,
    /// Sueltas físicas que ya no deben salir: las de Meta y Mayús tras Copilot,
    /// que ya se soltaron a mano, y la de una tecla capturada.
    tragar: Vec<u32>,
}

impl View for Traductor {
    type V = EstadoTraductor;

    closed spec fn view(&self) -> EstadoTraductor {
        EstadoTraductor { fisicas: self.fisicas@, pulsadas: self.pulsadas@, tragar: self.tragar@ }
    }
}

/// Un traductor que no ha visto ningún evento.
pub open spec fn estado_inicial() -> EstadoTraductor {
    EstadoTraductor { fisicas: seq![], pulsadas: seq![], tragar: seq![] }
}

impl Default for Traductor {
    fn default() -> (r: Self)
        ensures
            r@ == estado_inicial(),
    {
        Traductor { fisicas: Vec::new(), pulsadas: Vec::new(), tragar: Vec::new() }
    }
}

/// La F23 del acorde de Copilot: con Meta y Mayús izquierdas pulsadas.
pub open spec fn es_acorde_copilot(e: EstadoTraductor, evdev: u32) -> bool {
    evdev == KEY_F23 && e.fisicas.contains(KEY_LEFTMETA) && e.fisicas.contains(KEY_LEFTSHIFT)
}

/// `i` es la primera posición de `x` en `s`.
pub open spec fn es_primera_vez(s: Seq<u32>, x: u32, i: int) -> bool {
    &&& 0 <= i < s.len()
    &&& s[i] == x
    &&& forall|j: int| 0 <= j < i ==> s[j] != x
}

pub open spec fn posicion_de(s: Seq<u32>, x: u32) -> Option<int> {
    if exists|i: int| es_primera_vez(s, x, i) {
        Some(choose|i: int| es_primera_vez(s, x, i))
    } else {
        None
    }
}

/// `i` es la primera pulsación guardada del origen `o`.
pub open spec fn es_primera_pulsada(s: Seq<(u32, Option<u32>)>, o: u32, i: int) -> bool {
    &&& 0 <= i < s.len()
    &&& s[i].0 == o
    &&& forall|j: int| 0 <= j < i ==> s[j].0 != o
}

pub open spec fn pulsacion_de(s: Seq<(u32, Option<u32>)>, o: u32) -> Option<int> {
    if exists|i: int| es_primera_pulsada(s, o, i) {
        Some(choose|i: int| es_primera_pulsada(s, o, i))
    } else {
        None
    }
}

/// Quitar el elemento `i` poniendo el último en su lugar (`Vec::swap_remove`).
pub open spec fn quitar_cambiando<T>(s: Seq<T>, i: int) -> Seq<T> {
    s.update(i, s.last()).drop_last()
}

pub open spec fn distinto_de(x: u32) -> spec_fn(u32) -> bool {
    |c: u32| c != x
}

/// Lo que sale por una pulsación con este destino.
pub open spec fn salida_de(d: Destino) -> Option<u32> {
    match d {
        Destino::Tecla(t) => Some(t),
        Destino::Nada => None,
    }
}

/// El origen que representa una pulsación.
pub open spec fn origen_de_pulsacion(e: EstadoTraductor, evdev: u32) -> Origen {
    if es_acorde_copilot(e, evdev) {
        Origen::Copilot
    } else {
        Origen::Evdev(evdev)
    }
}

/// Un evento físico: el estado que deja y los `(código, pulsada)` que salen.
pub open spec fn traducir_evento(
    e: EstadoTraductor,
    mapa: Seq<(Origen, Destino)>,
    evdev: u32,
    pulsada: bool,
) -> (EstadoTraductor, Seq<(u32, bool)>) {
    if pulsada {
        let fisicas = e.fisicas.push(evdev);
        let e1 = EstadoTraductor { fisicas, pulsadas: e.pulsadas, tragar: e.tragar };
        let copilot = es_acorde_copilot(e1, evdev);
        match destino_de(mapa, origen_de_pulsacion(e1, evdev)) {
            None => (e1, seq![(evdev, true)]),
            Some(d) => {
                let previos = if copilot {
                    seq![(KEY_LEFTMETA, false), (KEY_LEFTSHIFT, false)]
                } else {
                    seq![]
                };
                let tragar = if copilot {
                    e.tragar.push(KEY_LEFTMETA).push(KEY_LEFTSHIFT)
                } else {
                    e.tragar
                };
                let eventos = match salida_de(d) {
                    Some(t) => previos.push((t, true)),
                    None => previos,
                };
                (
                    EstadoTraductor {
                        fisicas,
                        pulsadas: e.pulsadas.push((evdev, salida_de(d))),
                        tragar,
                    },
                    eventos,
                )
            },
        }
    } else {
        let fisicas = e.fisicas.filter(distinto_de(evdev));
        match posicion_de(e.tragar, evdev) {
            Some(i) => (
                EstadoTraductor {
                    fisicas,
                    pulsadas: e.pulsadas,
                    tragar: quitar_cambiando(e.tragar, i),
                },
                seq![],
            ),
            None => match pulsacion_de(e.pulsadas, evdev) {
                Some(i) => (
                    EstadoTraductor {
                        fisicas,
                        pulsadas: quitar_cambiando(e.pulsadas, i),
                        tragar: e.tragar,
                    },
                    match e.pulsadas[i].1 {
                        Some(d) => seq![(d, false)],
                        None => seq![],
                    },
                ),
                None => (
                    EstadoTraductor { fisicas, pulsadas: e.pulsadas, tragar: e.tragar },
                    seq![(evdev, false)],
                ),
            },
        }
    }
}

/// Lo que se repite cuando el kernel autorrepite una tecla física mantenida.
pub open spec fn repeticion_de(e: EstadoTraductor, evdev: u32) -> Option<u32> {
    if e.tragar.contains(evdev) {
        None
    } else {
        match pulsacion_de(e.pulsadas, evdev) {
            Some(i) => e.pulsadas[i].1,
            None => Some(evdev),
        }
    }
}

fn contiene(v: &Vec<u32>, x: u32) -> (r: bool)
    ensures
        r == v@.contains(x),
{
    let mut i: usize = 0;
    while i < v.len()
        invariant
            i <= v@.len(),
            forall|j: int| 0 <= j < i ==> v@[j] != x,
        decreases v@.len() - i,
    {
        if v[i] == x {
            assert(v@[i as int] == x);
            return true;
        }
        i = i + 1;
    }
    false
}

fn posicion(v: &Vec<u32>, x: u32) -> (r: Option<usize>)
    ensures
        match r {
            Some(i) => posicion_de(v@, x) == Some(i as int),
            None => posicion_de(v@, x) is None,
        },
{
    let mut i: usize = 0;
    while i < v.len()
        invariant
            i <= v@.len(),
            forall|j: int| 0 <= j < i ==> v@[j] != x,
        decreases v@.len() - i,
    {
        if v[i] == x {
            proof {
                assert(es_primera_vez(v@, x, i as int));
                let k = choose|k: int| es_primera_vez(v@, x, k);
                if k < i {
                    assert(v@[k] != x);
                }
                if (i as int) < k {
                    assert(v@[i as int] != x);
                }
            }
            return Some(i);
        }
        i = i + 1;
    }
    None
}

fn posicion_pulsada(v: &Vec<(u32, Option<u32>)>, o: u32) -> (r: Option<usize>)
    ensures
        match r {
            Some(i) => pulsacion_de(v@, o) == Some(i as int),
            None => pulsacion_de(v@, o) is None,
        },
{
    let mut i: usize = 0;
    while i < v.len()
        invariant
            i <= v@.len(),
            forall|j: int| 0 <= j < i ==> v@[j].0 != o,
        decreases v@.len() - i,
    {
        if v[i].0 == o {
            proof {
                assert(es_primera_pulsada(v@, o, i as int));
                let k = choose|k: int| es_primera_pulsada(v@, o, k);
                if k < i {
                    assert(v@[k].0 != o);
                }
                if (i as int) < k {
                    assert(v@[i as int].0 != o);
                }
            }
            return Some(i);
        }
        i = i + 1;
    }
    None
}

impl Traductor {
    /// ¿Esta pulsación es la F23 del acorde de Copilot?
    pub fn es_copilot(&self, evdev: u32) -> (r: bool)
        ensures
            r == es_acorde_copilot(self@, evdev),
    {
        evdev == KEY_F23 && contiene(&self.fisicas, KEY_LEFTMETA) && contiene(
            &self.fisicas,
            KEY_LEFTSHIFT,
        )
    }

    /// La pulsación se la quedó la captura de la app: que su suelta tampoco
    /// salga.
    pub fn tragar_suelta(&mut self, evdev: u32)
        ensures
            final(self)@ == (EstadoTraductor {
                fisicas: old(self)@.fisicas,
                pulsadas: old(self)@.pulsadas,
                tragar: old(self)@.tragar.push(evdev),
            }),
    {
        self.tragar.push(evdev);
    }

    /// `(código, pulsada)` que hay que mandar por el teclado virtual.
    pub fn traducir(&mut self, mapa: &Remapeos, evdev: u32, pulsada: bool) -> (r: Vec<(u32, bool)>)
        ensures
            (final(self)@, r@) == traducir_evento(old(self)@, mapa@, evdev, pulsada),
    {
        if pulsada {
            self.fisicas.push(evdev);
        } else {
            let mut restantes: Vec<u32> = Vec::new();
            let mut i: usize = 0;
            while i < self.fisicas.len()
                invariant
                    i <= self.fisicas@.len(),
                    restantes@ == self.fisicas@.take(i as int).filter(distinto_de(evdev)),
                decreases self.fisicas@.len() - i,
            {
                let c = self.fisicas[i];
                proof {
                    self.fisicas@.take(i as int).lemma_filter_push(c, distinto_de(evdev));
                    assert(self.fisicas@.take(i + 1) =~= self.fisicas@.take(i as int).push(c));
                }
                if c != evdev {
                    restantes.push(c);
                }
                i = i + 1;
            }
            assert(self.fisicas@.take(self.fisicas@.len() as int) =~= self.fisicas@);
            self.fisicas = restantes;
            if let Some(i) = posicion(&self.tragar, evdev) {
                self.tragar.swap_remove(i);
                return Vec::new();
            }
            if let Some(i) = posicion_pulsada(&self.pulsadas, evdev) {
                let (_, destino) = self.pulsadas.swap_remove(i);
                let mut eventos: Vec<(u32, bool)> = Vec::new();
                if let Some(d) = destino {
                    eventos.push((d, false));
                }
                return eventos;
            }
            let mut eventos: Vec<(u32, bool)> = Vec::new();
            eventos.push((evdev, false));
            return eventos;
        }
        let copilot = self.es_copilot(evdev);
        let origen = if copilot {
            Origen::Copilot
        } else {
            Origen::Evdev(evdev)
        };
        let destino = match mapa.buscar(origen) {
            Some(d) => d,
            None => {
                let mut eventos: Vec<(u32, bool)> = Vec::new();
                eventos.push((evdev, true));
                return eventos;
            },
        };
        let mut eventos: Vec<(u32, bool)> = Vec::new();
        if copilot {
            eventos.push((KEY_LEFTMETA, false));
            eventos.push((KEY_LEFTSHIFT, false));
            self.tragar.push(KEY_LEFTMETA);
            self.tragar.push(KEY_LEFTSHIFT);
        }
        let salida = match destino {
            Destino::Tecla(d) => {
                eventos.push((d, true));
                Some(d)
            },
            Destino::Nada => None,
        };
        self.pulsadas.push((evdev, salida));
        eventos
    }

    /// Qué repetir cuando el kernel autorrepite una tecla física mantenida:
    /// lo que salió al pulsarla, o nada si no salió. Los escritorios con
    /// libinput repiten por su cuenta, pero la consola usa estas.
    pub fn repeticion(&self, evdev: u32) -> (r: Option<u32>)
        ensures
            r == repeticion_de(self@, evdev),
    {
        if contiene(&self.tragar, evdev) {
            return None;
        }
        match posicion_pulsada(&self.pulsadas, evdev) {
            Some(i) => self.pulsadas[i].1,
            None => Some(evdev),
        }
    }
}

// ---------------------------------------------------------------------------
// Leyes

/// Lo que sale al pulsar `evdev` con este mapa: la tecla destino, la misma
/// tecla si no tiene remapeo, o nada.
pub open spec fn salida_de_pulsacion(
    e: EstadoTraductor,
    mapa: Seq<(Origen, Destino)>,
    evdev: u32,
) -> Option<u32> {
    let e1 = EstadoTraductor {
        fisicas: e.fisicas.push(evdev),
        pulsadas: e.pulsadas,
        tragar: e.tragar,
    };
    match destino_de(mapa, origen_de_pulsacion(e1, evdev)) {
        None => Some(evdev),
        Some(d) => salida_de(d),
    }
}

proof fn lema_hay_primera_vez(s: Seq<u32>, x: u32, i: int)
    requires
        0 <= i < s.len(),
        s[i] == x,
    ensures
        posicion_de(s, x) is Some,
    decreases i,
{
    if exists|j: int| 0 <= j < i && s[j] == x {
        let j = choose|j: int| 0 <= j < i && s[j] == x;
        lema_hay_primera_vez(s, x, j);
    } else {
        assert(es_primera_vez(s, x, i));
    }
}

proof fn lema_posicion_contiene(s: Seq<u32>, x: u32)
    ensures
        posicion_de(s, x) is Some <==> s.contains(x),
        posicion_de(s, x) matches Some(i) ==> es_primera_vez(s, x, i),
{
    if s.contains(x) {
        let i = choose|i: int| 0 <= i < s.len() && s[i] == x;
        lema_hay_primera_vez(s, x, i);
    }
    if let Some(i) = posicion_de(s, x) {
        assert(es_primera_vez(s, x, i));
        assert(s[i] == x);
    }
}

proof fn lema_pulsacion_anadida(s: Seq<(u32, Option<u32>)>, o: u32, salida: Option<u32>)
    requires
        pulsacion_de(s, o) is None,
    ensures
        pulsacion_de(s.push((o, salida)), o) == Some(s.len() as int),
{
    let t = s.push((o, salida));
    assert forall|j: int| 0 <= j < s.len() implies t[j].0 != o by {
        if t[j].0 == o {
            assert(s[j].0 == o);
            if exists|k: int| 0 <= k < j && s[k].0 == o {
                let k = choose|k: int| 0 <= k < j && s[k].0 == o;
                lema_hay_primera_pulsada(s, o, k);
            } else {
                assert(es_primera_pulsada(s, o, j));
            }
        }
    }
    assert(es_primera_pulsada(t, o, s.len() as int));
    let k = choose|k: int| es_primera_pulsada(t, o, k);
    if k < s.len() {
        assert(t[k].0 != o);
    }
}

proof fn lema_hay_primera_pulsada(s: Seq<(u32, Option<u32>)>, o: u32, i: int)
    requires
        0 <= i < s.len(),
        s[i].0 == o,
    ensures
        pulsacion_de(s, o) is Some,
    decreases i,
{
    if exists|j: int| 0 <= j < i && s[j].0 == o {
        let j = choose|j: int| 0 <= j < i && s[j].0 == o;
        lema_hay_primera_pulsada(s, o, j);
    } else {
        assert(es_primera_pulsada(s, o, i));
    }
}

proof fn lema_destino_en_mapa_vacio(o: Origen)
    ensures
        destino_de(Seq::<(Origen, Destino)>::empty(), o) is None,
{
}

/// Ley: sin remapeos, y sin nada guardado de antes, cada evento sale tal
/// cual y el traductor sigue sin nada guardado.
pub proof fn ley_sin_remapeo_pasa_tal_cual(e: EstadoTraductor, evdev: u32, pulsada: bool)
    requires
        e.pulsadas.len() == 0,
        e.tragar.len() == 0,
    ensures
        traducir_evento(e, seq![], evdev, pulsada).1 == seq![(evdev, pulsada)],
        traducir_evento(e, seq![], evdev, pulsada).0.pulsadas.len() == 0,
        traducir_evento(e, seq![], evdev, pulsada).0.tragar.len() == 0,
{
    let e1 = EstadoTraductor {
        fisicas: e.fisicas.push(evdev),
        pulsadas: e.pulsadas,
        tragar: e.tragar,
    };
    lema_destino_en_mapa_vacio(origen_de_pulsacion(e1, evdev));
    lema_posicion_contiene(e.tragar, evdev);
    if pulsacion_de(e.pulsadas, evdev) is Some {
        let i = choose|i: int| es_primera_pulsada(e.pulsadas, evdev, i);
        assert(es_primera_pulsada(e.pulsadas, evdev, i));
    }
}

/// Ley: la suelta de una tecla devuelve lo que salió al pulsarla, aunque el
/// mapa haya cambiado entre medias; lo que se repite mientras está pulsada es
/// eso mismo, y tras soltarla no queda ninguna pulsación de más guardada.
pub proof fn ley_se_suelta_lo_pulsado(
    e: EstadoTraductor,
    mapa_al_pulsar: Seq<(Origen, Destino)>,
    mapa_al_soltar: Seq<(Origen, Destino)>,
    evdev: u32,
)
    requires
        !e.tragar.contains(evdev),
        pulsacion_de(e.pulsadas, evdev) is None,
    ensures
        ({
            let (e1, al_pulsar) = traducir_evento(e, mapa_al_pulsar, evdev, true);
            let (e2, al_soltar) = traducir_evento(e1, mapa_al_soltar, evdev, false);
            let salida = salida_de_pulsacion(e, mapa_al_pulsar, evdev);
            &&& salida matches Some(t) ==> al_pulsar.len() > 0 && al_pulsar.last() == (t, true)
            &&& salida is None ==> forall|i: int|
                0 <= i < al_pulsar.len() ==> !(#[trigger] al_pulsar[i]).1
            &&& repeticion_de(e1, evdev) == salida
            &&& al_soltar == match salida {
                Some(t) => seq![(t, false)],
                None => Seq::<(u32, bool)>::empty(),
            }
            &&& e2.pulsadas == e.pulsadas
        }),
{
    let (e1, al_pulsar) = traducir_evento(e, mapa_al_pulsar, evdev, true);
    let f = e.fisicas.push(evdev);
    let ea = EstadoTraductor { fisicas: f, pulsadas: e.pulsadas, tragar: e.tragar };
    let copilot = es_acorde_copilot(ea, evdev);
    lema_posicion_contiene(e.tragar, evdev);
    assert(!e1.tragar.contains(evdev)) by {
        if copilot {
            let t = e.tragar.push(KEY_LEFTMETA).push(KEY_LEFTSHIFT);
            if t.contains(evdev) {
                let i = choose|i: int| 0 <= i < t.len() && t[i] == evdev;
                if i < e.tragar.len() {
                    assert(e.tragar[i] == evdev);
                }
            }
        }
    }
    lema_posicion_contiene(e1.tragar, evdev);
    match destino_de(mapa_al_pulsar, origen_de_pulsacion(ea, evdev)) {
        None => {},
        Some(d) => {
            lema_pulsacion_anadida(e.pulsadas, evdev, salida_de(d));
            let p = e.pulsadas.push((evdev, salida_de(d)));
            assert(quitar_cambiando(p, e.pulsadas.len() as int) =~= e.pulsadas);
        },
    }
}

/// Ley: la suelta de una tecla cuya pulsación se quedó la captura no sale, y
/// mientras tanto tampoco se repite.
pub proof fn ley_suelta_capturada_no_sale(
    e: EstadoTraductor,
    mapa: Seq<(Origen, Destino)>,
    evdev: u32,
)
    ensures
        ({
            let e1 = EstadoTraductor {
                fisicas: e.fisicas,
                pulsadas: e.pulsadas,
                tragar: e.tragar.push(evdev),
            };
            &&& traducir_evento(e1, mapa, evdev, false).1 == Seq::<(u32, bool)>::empty()
            &&& repeticion_de(e1, evdev) is None
        }),
{
    let t = e.tragar.push(evdev);
    assert(t[t.len() - 1] == evdev);
    lema_posicion_contiene(t, evdev);
}

/// Ley: cuando el acorde de Copilot tiene remapeo, Meta y Mayús se sueltan a
/// mano al llegar la F23, y sus sueltas físicas, que llegan después de la de
/// la F23, ya no salen.
pub proof fn ley_copilot_suelta_meta_y_mayus_una_vez(
    e: EstadoTraductor,
    mapa: Seq<(Origen, Destino)>,
)
    requires
        e.fisicas.contains(KEY_LEFTMETA),
        e.fisicas.contains(KEY_LEFTSHIFT),
        destino_de(mapa, Origen::Copilot) is Some,
        !e.tragar.contains(KEY_F23),
        pulsacion_de(e.pulsadas, KEY_F23) is None,
    ensures
        ({
            let (e1, al_pulsar) = traducir_evento(e, mapa, KEY_F23, true);
            let (e2, _) = traducir_evento(e1, mapa, KEY_F23, false);
            let (e3, suelta_mayus) = traducir_evento(e2, mapa, KEY_LEFTSHIFT, false);
            let (e4, suelta_meta) = traducir_evento(e3, mapa, KEY_LEFTMETA, false);
            &&& al_pulsar.len() >= 2
            &&& al_pulsar[0] == (KEY_LEFTMETA, false)
            &&& al_pulsar[1] == (KEY_LEFTSHIFT, false)
            &&& suelta_mayus == Seq::<(u32, bool)>::empty()
            &&& suelta_meta == Seq::<(u32, bool)>::empty()
        }),
{
    let f = e.fisicas.push(KEY_F23);
    let ea = EstadoTraductor { fisicas: f, pulsadas: e.pulsadas, tragar: e.tragar };
    let i_meta = choose|i: int| 0 <= i < e.fisicas.len() && e.fisicas[i] == KEY_LEFTMETA;
    let i_mayus = choose|i: int| 0 <= i < e.fisicas.len() && e.fisicas[i] == KEY_LEFTSHIFT;
    assert(f[i_meta] == KEY_LEFTMETA);
    assert(f[i_mayus] == KEY_LEFTSHIFT);
    assert(es_acorde_copilot(ea, KEY_F23));
    let (e1, al_pulsar) = traducir_evento(e, mapa, KEY_F23, true);
    let t1 = e.tragar.push(KEY_LEFTMETA).push(KEY_LEFTSHIFT);
    assert(e1.tragar == t1);
    lema_posicion_contiene(e.tragar, KEY_F23);
    assert(!t1.contains(KEY_F23)) by {
        if t1.contains(KEY_F23) {
            let i = choose|i: int| 0 <= i < t1.len() && t1[i] == KEY_F23;
            assert(e.tragar[i] == KEY_F23);
        }
    }
    lema_posicion_contiene(t1, KEY_F23);
    let (e2, _) = traducir_evento(e1, mapa, KEY_F23, false);
    assert(e2.tragar == t1);
    let n = e.tragar.len() as int;
    assert(t1[n + 1] == KEY_LEFTSHIFT);
    lema_posicion_contiene(t1, KEY_LEFTSHIFT);
    let p = choose|p: int| es_primera_vez(t1, KEY_LEFTSHIFT, p);
    assert(posicion_de(t1, KEY_LEFTSHIFT) == Some(p));
    let (e3, _) = traducir_evento(e2, mapa, KEY_LEFTSHIFT, false);
    let t3 = quitar_cambiando(t1, p);
    assert(e3.tragar == t3);
    assert(t1[n] == KEY_LEFTMETA);
    assert(p != n);
    assert(t3[n] == KEY_LEFTMETA);
    lema_posicion_contiene(t3, KEY_LEFTMETA);
}

/// Una serie de eventos físicos, uno tras otro: el estado que dejan y todo lo
/// que sale, en orden.
pub open spec fn traducir_serie(
    e: EstadoTraductor,
    mapa: Seq<(Origen, Destino)>,
    eventos: Seq<(u32, bool)>,
) -> (EstadoTraductor, Seq<(u32, bool)>)
    decreases eventos.len(),
{
    if eventos.len() == 0 {
        (e, seq![])
    } else {
        let (e1, salida) = traducir_evento(e, mapa, eventos[0].0, eventos[0].1);
        let (e2, resto) = traducir_serie(e1, mapa, eventos.drop_first());
        (e2, salida + resto)
    }
}

/// Lo que manda el firmware al pulsar y soltar Copilot: Meta, Mayús y F23
/// pulsadas, y sueltas al revés.
pub open spec fn pulsacion_de_copilot() -> Seq<(u32, bool)> {
    seq![
        (KEY_LEFTMETA, true),
        (KEY_LEFTSHIFT, true),
        (KEY_F23, true),
        (KEY_F23, false),
        (KEY_LEFTSHIFT, false),
        (KEY_LEFTMETA, false),
    ]
}

/// Ley: con Copilot remapeado (y Meta y Mayús sin remapear), pulsar y soltar
/// Copilot en un traductor recién hecho saca Meta y Mayús pulsadas y sueltas
/// una sola vez, y el destino pulsado y suelto (nada, si es `nada`); el
/// traductor queda como estaba, sin ninguna tecla guardada.
pub proof fn ley_copilot_no_deja_nada_pulsado(mapa: Seq<(Origen, Destino)>, d: Destino)
    requires
        destino_de(mapa, Origen::Copilot) == Some(d),
        destino_de(mapa, Origen::Evdev(KEY_LEFTMETA)) is None,
        destino_de(mapa, Origen::Evdev(KEY_LEFTSHIFT)) is None,
    ensures
        traducir_serie(estado_inicial(), mapa, pulsacion_de_copilot()) == (
            estado_inicial(),
            seq![
                (KEY_LEFTMETA, true),
                (KEY_LEFTSHIFT, true),
                (KEY_LEFTMETA, false),
                (KEY_LEFTSHIFT, false),
            ] + match salida_de(d) {
                Some(t) => seq![(t, true), (t, false)],
                None => Seq::<(u32, bool)>::empty(),
            },
        ),
{
    let vacia = Seq::<u32>::empty();
    let salida = salida_de(d);
    let e0 = estado_inicial();
    let e1 = EstadoTraductor { fisicas: seq![KEY_LEFTMETA], pulsadas: seq![], tragar: seq![] };
    let e2 = EstadoTraductor {
        fisicas: seq![KEY_LEFTMETA, KEY_LEFTSHIFT],
        pulsadas: seq![],
        tragar: seq![],
    };
    let e3 = EstadoTraductor {
        fisicas: seq![KEY_LEFTMETA, KEY_LEFTSHIFT, KEY_F23],
        pulsadas: seq![(KEY_F23, salida)],
        tragar: seq![KEY_LEFTMETA, KEY_LEFTSHIFT],
    };
    let e4 = EstadoTraductor {
        fisicas: seq![KEY_LEFTMETA, KEY_LEFTSHIFT],
        pulsadas: seq![],
        tragar: seq![KEY_LEFTMETA, KEY_LEFTSHIFT],
    };
    let e5 = EstadoTraductor {
        fisicas: seq![KEY_LEFTMETA],
        pulsadas: seq![],
        tragar: seq![KEY_LEFTMETA],
    };
    let s1: Seq<(u32, bool)> = seq![(KEY_LEFTMETA, true)];
    let s2: Seq<(u32, bool)> = seq![(KEY_LEFTSHIFT, true)];
    let previos: Seq<(u32, bool)> = seq![(KEY_LEFTMETA, false), (KEY_LEFTSHIFT, false)];
    let s3: Seq<(u32, bool)> = match salida {
        Some(t) => previos.push((t, true)),
        None => previos,
    };
    let s4: Seq<(u32, bool)> = match salida {
        Some(t) => seq![(t, false)],
        None => seq![],
    };
    let vacio = Seq::<(u32, bool)>::empty();

    // Las teclas físicas pulsadas, al ir soltándolas.
    reveal(Seq::filter);
    assert(vacia.filter(distinto_de(KEY_F23)) =~= vacia);
    assert(vacia.filter(distinto_de(KEY_LEFTSHIFT)) =~= vacia);
    assert(vacia.filter(distinto_de(KEY_LEFTMETA)) =~= vacia);
    vacia.lemma_filter_push(KEY_LEFTMETA, distinto_de(KEY_F23));
    vacia.push(KEY_LEFTMETA).lemma_filter_push(KEY_LEFTSHIFT, distinto_de(KEY_F23));
    vacia.push(KEY_LEFTMETA).push(KEY_LEFTSHIFT).lemma_filter_push(KEY_F23, distinto_de(KEY_F23));
    assert(vacia.push(KEY_LEFTMETA).push(KEY_LEFTSHIFT).push(KEY_F23) =~= e3.fisicas);
    assert(e3.fisicas.filter(distinto_de(KEY_F23)) =~= e4.fisicas);
    vacia.lemma_filter_push(KEY_LEFTMETA, distinto_de(KEY_LEFTSHIFT));
    vacia.push(KEY_LEFTMETA).lemma_filter_push(KEY_LEFTSHIFT, distinto_de(KEY_LEFTSHIFT));
    assert(vacia.push(KEY_LEFTMETA).push(KEY_LEFTSHIFT) =~= e4.fisicas);
    assert(e4.fisicas.filter(distinto_de(KEY_LEFTSHIFT)) =~= e5.fisicas);
    vacia.lemma_filter_push(KEY_LEFTMETA, distinto_de(KEY_LEFTMETA));
    assert(vacia.push(KEY_LEFTMETA) =~= e5.fisicas);
    assert(e5.fisicas.filter(distinto_de(KEY_LEFTMETA)) =~= vacia);

    // Pulsar Meta y Mayús: sin remapeo, salen tal cual.
    assert(e0.fisicas.push(KEY_LEFTMETA) =~= e1.fisicas);
    assert(traducir_evento(e0, mapa, KEY_LEFTMETA, true) == (e1, s1));
    assert(e1.fisicas.push(KEY_LEFTSHIFT) =~= e2.fisicas);
    assert(traducir_evento(e1, mapa, KEY_LEFTSHIFT, true) == (e2, s2));

    // La F23 con las dos abajo es Copilot.
    let ea = EstadoTraductor { fisicas: e3.fisicas, pulsadas: e2.pulsadas, tragar: e2.tragar };
    assert(e2.fisicas.push(KEY_F23) =~= e3.fisicas);
    assert(e3.fisicas[0] == KEY_LEFTMETA);
    assert(e3.fisicas[1] == KEY_LEFTSHIFT);
    assert(es_acorde_copilot(ea, KEY_F23));
    assert(e2.tragar.push(KEY_LEFTMETA).push(KEY_LEFTSHIFT) =~= e3.tragar);
    assert(e2.pulsadas.push((KEY_F23, salida)) =~= e3.pulsadas);
    assert(traducir_evento(e2, mapa, KEY_F23, true) == (e3, s3));

    // Soltar la F23 suelta el destino.
    lema_posicion_contiene(e3.tragar, KEY_F23);
    assert(!e3.tragar.contains(KEY_F23)) by {
        if e3.tragar.contains(KEY_F23) {
            let i = choose|i: int| 0 <= i < e3.tragar.len() && e3.tragar[i] == KEY_F23;
        }
    }
    assert(es_primera_pulsada(e3.pulsadas, KEY_F23, 0));
    let k = choose|k: int| es_primera_pulsada(e3.pulsadas, KEY_F23, k);
    assert(k == 0);
    assert(quitar_cambiando(e3.pulsadas, 0) =~= e4.pulsadas);
    assert(traducir_evento(e3, mapa, KEY_F23, false) == (e4, s4));

    // Las sueltas físicas de Mayús y Meta se tragan.
    assert(es_primera_vez(e4.tragar, KEY_LEFTSHIFT, 1));
    let k = choose|k: int| es_primera_vez(e4.tragar, KEY_LEFTSHIFT, k);
    assert(k == 1);
    assert(quitar_cambiando(e4.tragar, 1) =~= e5.tragar);
    assert(traducir_evento(e4, mapa, KEY_LEFTSHIFT, false) == (e5, vacio));
    assert(es_primera_vez(e5.tragar, KEY_LEFTMETA, 0));
    let k = choose|k: int| es_primera_vez(e5.tragar, KEY_LEFTMETA, k);
    assert(k == 0);
    assert(quitar_cambiando(e5.tragar, 0) =~= e0.tragar);
    assert(e0.fisicas =~= vacia);
    assert(traducir_evento(e5, mapa, KEY_LEFTMETA, false) == (e0, vacio));

    // La serie entera.
    let ev = pulsacion_de_copilot();
    assert(ev.skip(6) =~= Seq::<(u32, bool)>::empty());
    assert(traducir_serie(e0, mapa, ev.skip(6)) == (e0, vacio));
    assert(ev.skip(5).drop_first() =~= ev.skip(6));
    assert(traducir_serie(e5, mapa, ev.skip(5)) == (e0, vacio + vacio));
    assert(ev.skip(4).drop_first() =~= ev.skip(5));
    assert(traducir_serie(e4, mapa, ev.skip(4)) == (e0, vacio + (vacio + vacio)));
    assert(ev.skip(3).drop_first() =~= ev.skip(4));
    assert(traducir_serie(e3, mapa, ev.skip(3)) == (e0, s4 + (vacio + (vacio + vacio))));
    assert(ev.skip(2).drop_first() =~= ev.skip(3));
    assert(traducir_serie(e2, mapa, ev.skip(2)) == (e0, s3 + (s4 + (vacio + (vacio + vacio)))));
    assert(ev.skip(1).drop_first() =~= ev.skip(2));
    assert(traducir_serie(e1, mapa, ev.skip(1)) == (
        e0,
        s2 + (s3 + (s4 + (vacio + (vacio + vacio)))),
    ));
    assert(ev.drop_first() =~= ev.skip(1));
    assert(s1 + (s2 + (s3 + (s4 + (vacio + (vacio + vacio))))) =~= seq![
        (KEY_LEFTMETA, true),
        (KEY_LEFTSHIFT, true),
        (KEY_LEFTMETA, false),
        (KEY_LEFTSHIFT, false),
    ] + match salida {
        Some(t) => seq![(t, true), (t, false)],
        None => Seq::<(u32, bool)>::empty(),
    });
}

// ---------------------------------------------------------------------------
// Series enteras de eventos

/// Cómo llega un evento físico al traductor.
pub enum Llegada {
    /// Una pulsación, que se traduce.
    Pulsa,
    /// Una suelta, que se traduce.
    Suelta,
    /// Una pulsación que se quedó la captura: en su lugar se traga su suelta.
    Capturada,
}

/// Un evento físico, con el mapa vigente cuando llega.
pub struct EventoFisico {
    pub mapa: Seq<(Origen, Destino)>,
    pub evdev: u32,
    pub llegada: Llegada,
}

/// Lo que hace un evento en el traductor: el estado que deja y lo que sale.
pub open spec fn efecto(e: EstadoTraductor, ev: EventoFisico) -> (EstadoTraductor, Seq<(u32, bool)>) {
    match ev.llegada {
        Llegada::Pulsa => traducir_evento(e, ev.mapa, ev.evdev, true),
        Llegada::Suelta => traducir_evento(e, ev.mapa, ev.evdev, false),
        Llegada::Capturada => (
            EstadoTraductor { fisicas: e.fisicas, pulsadas: e.pulsadas, tragar: e.tragar.push(ev.evdev) },
            seq![],
        ),
    }
}

/// Unos eventos sobre un traductor recién hecho: el estado que dejan y todo
/// lo que sale, en orden.
pub open spec fn recorrer(evs: Seq<EventoFisico>) -> (EstadoTraductor, Seq<(u32, bool)>)
    decreases evs.len(),
{
    if evs.len() == 0 {
        (estado_inicial(), seq![])
    } else {
        let (e, salida) = recorrer(evs.drop_last());
        let (e2, mas) = efecto(e, evs.last());
        (e2, salida + mas)
    }
}

/// Tras estos eventos, la tecla física `c` está abajo.
pub open spec fn abajo(evs: Seq<EventoFisico>, c: u32) -> bool
    decreases evs.len(),
{
    if evs.len() == 0 {
        false
    } else if evs.last().evdev == c {
        !(evs.last().llegada is Suelta)
    } else {
        abajo(evs.drop_last(), c)
    }
}

/// Tras estos eventos, la tecla física `c` está abajo y su pulsación se la
/// quedó la captura.
pub open spec fn capturada(evs: Seq<EventoFisico>, c: u32) -> bool
    decreases evs.len(),
{
    if evs.len() == 0 {
        false
    } else if evs.last().evdev == c {
        evs.last().llegada is Capturada
    } else {
        capturada(evs.drop_last(), c)
    }
}

/// El evento es la F23 del acorde de Copilot, con Copilot remapeado: Meta y
/// Mayús abajo, sin que la captura se haya quedado su pulsación.
pub open spec fn es_acorde(antes: Seq<EventoFisico>, ev: EventoFisico) -> bool {
    &&& ev.llegada is Pulsa
    &&& ev.evdev == KEY_F23
    &&& abajo(antes, KEY_LEFTMETA)
    &&& !capturada(antes, KEY_LEFTMETA)
    &&& abajo(antes, KEY_LEFTSHIFT)
    &&& !capturada(antes, KEY_LEFTSHIFT)
    &&& destino_de(ev.mapa, Origen::Copilot) is Some
}

/// Desde la última vez que se pulsó `c` (Meta o Mayús) ya hubo un acorde de
/// Copilot: su salida ya se soltó a mano.
pub open spec fn acordado(evs: Seq<EventoFisico>, c: u32) -> bool
    decreases evs.len(),
{
    if evs.len() == 0 {
        false
    } else if evs.last().evdev == c {
        false
    } else if (c == KEY_LEFTMETA || c == KEY_LEFTSHIFT) && es_acorde(evs.drop_last(), evs.last()) {
        true
    } else {
        acordado(evs.drop_last(), c)
    }
}

/// Un evento que puede llegar tras `antes`: cada tecla se pulsa (o se la
/// queda la captura) estando arriba y se suelta estando abajo; el mapa no
/// remapea Meta ni Mayús; y no hay dos acordes de Copilot en una misma
/// pulsación de Meta o de Mayús.
pub open spec fn evento_valido(antes: Seq<EventoFisico>, ev: EventoFisico) -> bool {
    &&& (ev.llegada is Suelta <==> abajo(antes, ev.evdev))
    &&& destino_de(ev.mapa, Origen::Evdev(KEY_LEFTMETA)) is None
    &&& destino_de(ev.mapa, Origen::Evdev(KEY_LEFTSHIFT)) is None
    &&& es_acorde(antes, ev) ==> !acordado(antes, KEY_LEFTMETA) && !acordado(antes, KEY_LEFTSHIFT)
}

pub open spec fn serie_valida(evs: Seq<EventoFisico>) -> bool {
    forall|i: int| 0 <= i < evs.len() ==> evento_valido(evs.take(i), #[trigger] evs[i])
}

/// Cuántas veces aparece `x` en `s`.
pub open spec fn veces(s: Seq<(u32, bool)>, x: (u32, bool)) -> nat
    decreases s.len(),
{
    if s.len() == 0 {
        0
    } else {
        veces(s.drop_last(), x) + (if s.last() == x {
            1nat
        } else {
            0nat
        })
    }
}

/// Ningún trozo inicial suelta una tecla más veces de las que la pulsó.
pub open spec fn sin_sueltas_de_mas(s: Seq<(u32, bool)>) -> bool {
    forall|k: int, c: u32|
        0 <= k <= s.len() ==> #[trigger] veces(s.take(k), (c, false)) <= veces(s.take(k), (c, true))
}

/// Cada tecla se suelta tantas veces como se pulsa.
pub open spec fn equilibrada(s: Seq<(u32, bool)>) -> bool {
    forall|c: u32| #[trigger] veces(s, (c, false)) == veces(s, (c, true))
}

/// Cuántos elementos de `s` cumplen `f`.
pub open spec fn cuenta(s: Seq<u32>, f: spec_fn(u32) -> bool) -> nat
    decreases s.len(),
{
    if s.len() == 0 {
        0
    } else {
        cuenta(s.drop_last(), f) + (if f(s.last()) {
            1nat
        } else {
            0nat
        })
    }
}

/// Lo que tiene pulsado en la salida la tecla física `k`, si está abajo.
spec fn aporte(e: EstadoTraductor, k: u32) -> Option<u32> {
    if exists|v: Option<u32>| e.pulsadas.contains((k, v)) {
        choose|v: Option<u32>| e.pulsadas.contains((k, v))
    } else if e.tragar.contains(k) {
        None
    } else {
        Some(k)
    }
}

spec fn produce(e: EstadoTraductor, c: u32) -> spec_fn(u32) -> bool {
    |k: u32| aporte(e, k) == Some(c)
}

/// Cuántas teclas físicas abajo tienen `c` pulsada en la salida.
spec fn retenida(e: EstadoTraductor, c: u32) -> nat {
    cuenta(e.fisicas, produce(e, c))
}

spec fn saldo(s: Seq<(u32, bool)>, c: u32) -> int {
    veces(s, (c, true)) - veces(s, (c, false))
}

/// Cada origen aparece en una sola pulsación guardada.
spec fn claves_unicas(p: Seq<(u32, Option<u32>)>) -> bool {
    &&& p.no_duplicates()
    &&& forall|x: (u32, Option<u32>), y: (u32, Option<u32>)|
        #![trigger p.contains(x), p.contains(y)]
        p.contains(x) && p.contains(y) && x.0 == y.0 ==> x == y
}

spec fn invariante(e: EstadoTraductor, evs: Seq<EventoFisico>, salida: Seq<(u32, bool)>) -> bool {
    &&& forall|k: u32| #[trigger] e.fisicas.contains(k) <==> (abajo(evs, k) && !capturada(evs, k))
    &&& e.fisicas.no_duplicates()
    &&& forall|k: u32|
        #[trigger] e.tragar.contains(k) <==> (capturada(evs, k) || ((k == KEY_LEFTMETA || k
            == KEY_LEFTSHIFT) && abajo(evs, k) && acordado(evs, k)))
    &&& e.tragar.no_duplicates()
    &&& forall|k: u32| #[trigger] capturada(evs, k) ==> abajo(evs, k)
    &&& forall|x: (u32, Option<u32>)|
        #[trigger] e.pulsadas.contains(x) ==> e.fisicas.contains(x.0) && !e.tragar.contains(x.0)
            && x.0 != KEY_LEFTMETA && x.0 != KEY_LEFTSHIFT
    &&& claves_unicas(e.pulsadas)
    &&& forall|c: u32| #[trigger] saldo(salida, c) == retenida(e, c)
    &&& sin_sueltas_de_mas(salida)
}

proof fn lema_cuenta_empujar(s: Seq<u32>, x: u32, f: spec_fn(u32) -> bool)
    ensures
        cuenta(s.push(x), f) == cuenta(s, f) + (if f(x) {
            1nat
        } else {
            0nat
        }),
{
    assert(s.push(x).drop_last() =~= s);
}

proof fn lema_cuenta_igual(s: Seq<u32>, f: spec_fn(u32) -> bool, g: spec_fn(u32) -> bool)
    requires
        forall|i: int| 0 <= i < s.len() ==> f(#[trigger] s[i]) == g(s[i]),
    ensures
        cuenta(s, f) == cuenta(s, g),
    decreases s.len(),
{
    if s.len() > 0 {
        let t = s.drop_last();
        assert forall|i: int| 0 <= i < t.len() implies f(#[trigger] t[i]) == g(t[i]) by {
            assert(t[i] == s[i]);
        }
        lema_cuenta_igual(t, f, g);
    }
}

proof fn lema_cuenta_positiva(s: Seq<u32>, x: u32, f: spec_fn(u32) -> bool)
    requires
        s.contains(x),
        f(x),
    ensures
        cuenta(s, f) >= 1,
    decreases s.len(),
{
    let t = s.drop_last();
    if s.last() != x {
        let i = choose|i: int| 0 <= i < s.len() && s[i] == x;
        assert(i < s.len() - 1);
        assert(t[i] == x);
        lema_cuenta_positiva(t, x, f);
    }
}

proof fn lema_sin_repetidos_recorte<A>(s: Seq<A>)
    requires
        s.len() > 0,
        s.no_duplicates(),
    ensures
        s.drop_last().no_duplicates(),
        !s.drop_last().contains(s.last()),
{
    let t = s.drop_last();
    assert forall|i: int, j: int| 0 <= i < t.len() && 0 <= j < t.len() && i != j implies t[i]
        != t[j] by {
        assert(t[i] == s[i]);
        assert(t[j] == s[j]);
    }
    if t.contains(s.last()) {
        let i = choose|i: int| 0 <= i < t.len() && t[i] == s.last();
        assert(s[i] == s[s.len() - 1]);
    }
}

proof fn lema_filtrar_sin(t: Seq<u32>, x: u32)
    requires
        !t.contains(x),
    ensures
        t.filter(distinto_de(x)) == t,
    decreases t.len(),
{
    reveal(Seq::filter);
    if t.len() > 0 {
        let u = t.drop_last();
        assert(u.push(t.last()) =~= t);
        assert(!u.contains(x)) by {
            if u.contains(x) {
                let i = choose|i: int| 0 <= i < u.len() && u[i] == x;
                assert(t[i] == x);
            }
        }
        lema_filtrar_sin(u, x);
        u.lemma_filter_push(t.last(), distinto_de(x));
    }
}

proof fn lema_filtrar(s: Seq<u32>, x: u32)
    requires
        s.no_duplicates(),
    ensures
        forall|j: u32|
            #[trigger] s.filter(distinto_de(x)).contains(j) <==> (s.contains(j) && j != x),
        s.filter(distinto_de(x)).no_duplicates(),
    decreases s.len(),
{
    broadcast use vstd::seq_lib::group_seq_properties;

    reveal(Seq::filter);
    if s.len() == 0 {
        assert(s.filter(distinto_de(x)) =~= s);
    } else {
        let t = s.drop_last();
        let y = s.last();
        assert(t.push(y) =~= s);
        lema_sin_repetidos_recorte(s);
        lema_filtrar(t, x);
        t.lemma_filter_push(y, distinto_de(x));
        let ft = t.filter(distinto_de(x));
        if y != x {
            assert(s.filter(distinto_de(x)) == ft.push(y));
            assert(!ft.contains(y));
            assert forall|i: int, j: int|
                0 <= i < ft.push(y).len() && 0 <= j < ft.push(y).len() && i != j implies ft.push(
                y,
            )[i] != ft.push(y)[j] by {
                if i == ft.len() {
                    assert(ft.contains(ft.push(y)[j]));
                } else if j == ft.len() {
                    assert(ft.contains(ft.push(y)[i]));
                }
            }
        }
    }
}

/// Quitar cambiando un elemento de una lista sin repetidos deja los demás.
proof fn lema_quitar<A>(s: Seq<A>, i: int)
    requires
        0 <= i < s.len(),
        s.no_duplicates(),
    ensures
        forall|x: A| #[trigger] quitar_cambiando(s, i).contains(x) <==> (s.contains(x) && x != s[i]),
        quitar_cambiando(s, i).no_duplicates(),
{
    let r = quitar_cambiando(s, i);
    let n = s.len() - 1;
    assert(r.len() == n);
    assert forall|m: int| 0 <= m < n implies #[trigger] r[m] == (if m == i {
        s[n]
    } else {
        s[m]
    }) by {}
    assert forall|x: A| r.contains(x) <==> (s.contains(x) && x != s[i]) by {
        if r.contains(x) {
            let m = choose|m: int| 0 <= m < r.len() && r[m] == x;
            if m == i {
                assert(s[n] == x);
            } else {
                assert(s[m] == x);
            }
        }
        if s.contains(x) && x != s[i] {
            let k = choose|k: int| 0 <= k < s.len() && s[k] == x;
            if k == n {
                assert(r[i] == x);
            } else {
                assert(r[k] == x);
            }
        }
    }
    assert forall|a: int, b: int| 0 <= a < r.len() && 0 <= b < r.len() && a != b implies r[a]
        != r[b] by {
        let ia = if a == i {
            n
        } else {
            a
        };
        let ib = if b == i {
            n
        } else {
            b
        };
        assert(r[a] == s[ia]);
        assert(r[b] == s[ib]);
    }
}

/// Añadir al final lo que suma o resta `x` a lo que está pulsado.
proof fn lema_anadir(s: Seq<(u32, bool)>, x: (u32, bool))
    requires
        sin_sueltas_de_mas(s),
        !x.1 ==> saldo(s, x.0) >= 1,
    ensures
        sin_sueltas_de_mas(s.push(x)),
        forall|c: u32|
            #[trigger] saldo(s.push(x), c) == saldo(s, c) + (if x.0 == c {
                if x.1 {
                    1int
                } else {
                    -1int
                }
            } else {
                0int
            }),
{
    let t = s.push(x);
    assert(t.drop_last() =~= s);
    assert forall|k: int, c: u32| 0 <= k <= t.len() implies #[trigger] veces(t.take(k), (c, false))
        <= veces(t.take(k), (c, true)) by {
        if k <= s.len() {
            assert(t.take(k) =~= s.take(k));
        } else {
            assert(t.take(k) =~= t);
            assert(s.take(s.len() as int) =~= s);
            assert(veces(s.take(s.len() as int), (c, false)) <= veces(s.take(s.len() as int), (c, true)));
        }
    }
}

proof fn lema_cuenta_quitar(s: Seq<u32>, x: u32, f: spec_fn(u32) -> bool)
    requires
        s.no_duplicates(),
        s.contains(x),
    ensures
        cuenta(s, f) == cuenta(s.filter(distinto_de(x)), f) + (if f(x) {
            1nat
        } else {
            0nat
        }),
    decreases s.len(),
{
    let t = s.drop_last();
    let y = s.last();
    assert(t.push(y) =~= s);
    t.lemma_filter_push(y, distinto_de(x));
    lema_cuenta_empujar(t, y, f);
    lema_sin_repetidos_recorte(s);
    if y == x {
        lema_filtrar_sin(t, x);
    } else {
        assert(t.contains(x)) by {
            let i = choose|i: int| 0 <= i < s.len() && s[i] == x;
            assert(i != s.len() - 1);
            assert(t[i] == x);
        }
        lema_cuenta_quitar(t, x, f);
        lema_cuenta_empujar(t.filter(distinto_de(x)), y, f);
    }
}

/// Lo que dicen `abajo`, `capturada` y `acordado` tras un evento más.
proof fn lema_empujar(evs: Seq<EventoFisico>, ev: EventoFisico)
    ensures
        forall|c: u32|
            #[trigger] abajo(evs.push(ev), c) == if ev.evdev == c {
                !(ev.llegada is Suelta)
            } else {
                abajo(evs, c)
            },
        forall|c: u32|
            #[trigger] capturada(evs.push(ev), c) == if ev.evdev == c {
                ev.llegada is Capturada
            } else {
                capturada(evs, c)
            },
        forall|c: u32|
            #[trigger] acordado(evs.push(ev), c) == if ev.evdev == c {
                false
            } else if (c == KEY_LEFTMETA || c == KEY_LEFTSHIFT) && es_acorde(evs, ev) {
                true
            } else {
                acordado(evs, c)
            },
{
    let n = evs.push(ev);
    assert(n.drop_last() =~= evs);
    assert(n.last() == ev);
}

/// Una pulsación que se queda la captura.
proof fn lema_paso_capturada(e: EstadoTraductor, evs: Seq<EventoFisico>, salida: Seq<(u32, bool)>, ev: EventoFisico)
    requires
        invariante(e, evs, salida),
        evento_valido(evs, ev),
        ev.llegada is Capturada,
    ensures
        invariante(efecto(e, ev).0, evs.push(ev), salida + efecto(e, ev).1),
{
    broadcast use vstd::seq_lib::group_seq_properties;

    let k = ev.evdev;
    let (e2, mas) = efecto(e, ev);
    let n = evs.push(ev);
    lema_empujar(evs, ev);
    assert(salida + mas =~= salida);
    assert(!e.fisicas.contains(k));
    assert(!e.tragar.contains(k));
    assert(e2.tragar.no_duplicates()) by {
        assert forall|i: int, j: int|
            0 <= i < e2.tragar.len() && 0 <= j < e2.tragar.len() && i != j implies e2.tragar[i]
            != e2.tragar[j] by {
            if i == e.tragar.len() {
                assert(e.tragar.contains(e2.tragar[j]));
            } else if j == e.tragar.len() {
                assert(e.tragar.contains(e2.tragar[i]));
            }
        }
    }
    assert forall|c: u32| #[trigger] saldo(salida, c) == retenida(e2, c) by {
        assert forall|i: int| 0 <= i < e.fisicas.len() implies produce(e, c)(#[trigger] e.fisicas[i])
            == produce(e2, c)(e.fisicas[i]) by {
            let j = e.fisicas[i];
            assert(e.fisicas.contains(j));
            assert(e2.tragar.contains(j) == e.tragar.contains(j));
        }
        lema_cuenta_igual(e.fisicas, produce(e, c), produce(e2, c));
    }
}

proof fn lema_aporte_guardado(e: EstadoTraductor, k: u32, v: Option<u32>)
    requires
        claves_unicas(e.pulsadas),
        e.pulsadas.contains((k, v)),
    ensures
        aporte(e, k) == v,
{
    let w = choose|w: Option<u32>| e.pulsadas.contains((k, w));
    assert(e.pulsadas.contains((k, w)));
}

proof fn lema_aporte_igual(e: EstadoTraductor, e2: EstadoTraductor, j: u32)
    requires
        claves_unicas(e.pulsadas),
        e.tragar.contains(j) == e2.tragar.contains(j),
        forall|v: Option<u32>| #[trigger] e.pulsadas.contains((j, v)) <==> e2.pulsadas.contains((j, v)),
    ensures
        aporte(e, j) == aporte(e2, j),
{
    if exists|v: Option<u32>| e.pulsadas.contains((j, v)) {
        let v = choose|v: Option<u32>| e.pulsadas.contains((j, v));
        assert(e2.pulsadas.contains((j, v)));
        let w = choose|w: Option<u32>| e2.pulsadas.contains((j, w));
        assert(e.pulsadas.contains((j, w)));
    } else {
        assert(!exists|v: Option<u32>| e2.pulsadas.contains((j, v))) by {
            if exists|v: Option<u32>| e2.pulsadas.contains((j, v)) {
                let v = choose|v: Option<u32>| e2.pulsadas.contains((j, v));
                assert(e.pulsadas.contains((j, v)));
            }
        }
    }
}

/// Ninguna pulsación guardada de `k`.
proof fn lema_sin_pulsacion(p: Seq<(u32, Option<u32>)>, k: u32)
    requires
        pulsacion_de(p, k) is None,
    ensures
        forall|v: Option<u32>| !(#[trigger] p.contains((k, v))),
{
    assert forall|v: Option<u32>| !(#[trigger] p.contains((k, v))) by {
        if p.contains((k, v)) {
            let i = choose|i: int| 0 <= i < p.len() && p[i] == (k, v);
            lema_hay_primera_pulsada(p, k, i);
        }
    }
}

/// Una suelta.
proof fn lema_paso_suelta(e: EstadoTraductor, evs: Seq<EventoFisico>, salida: Seq<(u32, bool)>, ev: EventoFisico)
    requires
        invariante(e, evs, salida),
        evento_valido(evs, ev),
        ev.llegada is Suelta,
    ensures
        invariante(efecto(e, ev).0, evs.push(ev), salida + efecto(e, ev).1),
{
    broadcast use vstd::seq_lib::group_seq_properties;

    let k = ev.evdev;
    let (e2, mas) = efecto(e, ev);
    lema_empujar(evs, ev);
    lema_filtrar(e.fisicas, k);
    lema_posicion_contiene(e.tragar, k);
    let f = e.fisicas.filter(distinto_de(k));
    assert(e2.fisicas == f);
    if e.tragar.contains(k) {
        let i = posicion_de(e.tragar, k)->0;
        assert(es_primera_vez(e.tragar, k, i));
        lema_quitar(e.tragar, i);
        assert(e2.tragar == quitar_cambiando(e.tragar, i));
        assert(e2.pulsadas == e.pulsadas);
        assert(salida + mas =~= salida);
        assert forall|v: Option<u32>| !(#[trigger] e.pulsadas.contains((k, v))) by {}
        assert forall|x: (u32, Option<u32>)| #[trigger] e2.pulsadas.contains(x) implies e2.fisicas.contains(
            x.0,
        ) by {
            assert(x.0 != k);
        }
        assert forall|c: u32| #[trigger] saldo(salida + mas, c) == retenida(e2, c) by {
            assert forall|j: u32| j != k implies aporte(e, j) == #[trigger] aporte(e2, j) by {
                lema_aporte_igual(e, e2, j);
            }
            if e.fisicas.contains(k) {
                lema_cuenta_quitar(e.fisicas, k, produce(e, c));
                assert(aporte(e, k) == None::<u32>);
                assert forall|i: int| 0 <= i < f.len() implies produce(e, c)(#[trigger] f[i])
                    == produce(e2, c)(f[i]) by {
                    assert(f.contains(f[i]));
                }
                lema_cuenta_igual(f, produce(e, c), produce(e2, c));
            } else {
                lema_filtrar_sin(e.fisicas, k);
                assert forall|i: int| 0 <= i < f.len() implies produce(e, c)(#[trigger] f[i])
                    == produce(e2, c)(f[i]) by {
                    assert(e.fisicas.contains(f[i]));
                }
                lema_cuenta_igual(f, produce(e, c), produce(e2, c));
            }
        }
    } else if pulsacion_de(e.pulsadas, k) is Some {
        let p = e.pulsadas;
        let i = pulsacion_de(p, k)->0;
        assert(es_primera_pulsada(p, k, i));
        let v = p[i].1;
        assert(p[i] == (k, v));
        assert(p.contains((k, v)));
        lema_aporte_guardado(e, k, v);
        lema_quitar(p, i);
        let r = quitar_cambiando(p, i);
        assert(e2.pulsadas == r);
        assert(e2.tragar == e.tragar);
        assert(e.fisicas.contains(k));
        assert(claves_unicas(r)) by {
            assert forall|x: (u32, Option<u32>), y: (u32, Option<u32>)|
                r.contains(x) && r.contains(y) && x.0 == y.0 implies x == y by {
                assert(p.contains(x));
                assert(p.contains(y));
            }
        }
        assert forall|j: u32| j != k implies aporte(e, j) == #[trigger] aporte(e2, j) by {
            assert forall|w: Option<u32>| #[trigger] p.contains((j, w)) <==> r.contains((j, w)) by {}
            lema_aporte_igual(e, e2, j);
        }
        assert forall|x: (u32, Option<u32>)| #[trigger] e2.pulsadas.contains(x) implies e2.fisicas.contains(
            x.0,
        ) by {
            assert(p.contains(x));
            if x.0 == k {
                assert(x == (k, v));
            }
        }
        assert forall|c: u32| #[trigger] retenida(e2, c) == retenida(e, c) - (if v == Some(c) {
            1int
        } else {
            0int
        }) by {
            lema_cuenta_quitar(e.fisicas, k, produce(e, c));
            assert forall|m: int| 0 <= m < f.len() implies produce(e, c)(#[trigger] f[m])
                == produce(e2, c)(f[m]) by {
                assert(f.contains(f[m]));
            }
            lema_cuenta_igual(f, produce(e, c), produce(e2, c));
        }
        match v {
            Some(t) => {
                assert(mas =~= seq![(t, false)]);
                assert(salida + mas =~= salida.push((t, false)));
                lema_cuenta_positiva(e.fisicas, k, produce(e, t));
                assert(saldo(salida, t) == retenida(e, t));
                lema_anadir(salida, (t, false));
            },
            None => {
                assert(mas =~= Seq::<(u32, bool)>::empty());
                assert(salida + mas =~= salida);
            },
        }
    } else {
        lema_sin_pulsacion(e.pulsadas, k);
        assert(aporte(e, k) == Some(k));
        assert forall|x: (u32, Option<u32>)| #[trigger] e2.pulsadas.contains(x) implies e2.fisicas.contains(
            x.0,
        ) by {
            if x.0 == k {
                assert(e.pulsadas.contains((k, x.1)));
            }
        }
        assert(e.fisicas.contains(k));
        assert(e2.pulsadas == e.pulsadas);
        assert(e2.tragar == e.tragar);
        assert(mas =~= seq![(k, false)]);
        assert(salida + mas =~= salida.push((k, false)));
        lema_cuenta_positiva(e.fisicas, k, produce(e, k));
        assert(saldo(salida, k) == retenida(e, k));
        lema_anadir(salida, (k, false));
        assert forall|c: u32| #[trigger] saldo(salida + mas, c) == retenida(e2, c) by {
            assert forall|j: u32| j != k implies aporte(e, j) == #[trigger] aporte(e2, j) by {
                lema_aporte_igual(e, e2, j);
            }
            lema_cuenta_quitar(e.fisicas, k, produce(e, c));
            assert forall|m: int| 0 <= m < f.len() implies produce(e, c)(#[trigger] f[m])
                == produce(e2, c)(f[m]) by {
                assert(f.contains(f[m]));
            }
            lema_cuenta_igual(f, produce(e, c), produce(e2, c));
        }
    }
}

/// Una pulsación que se traduce.
#[verifier::rlimit(50)]
proof fn lema_paso_pulsa(e: EstadoTraductor, evs: Seq<EventoFisico>, salida: Seq<(u32, bool)>, ev: EventoFisico)
    requires
        invariante(e, evs, salida),
        evento_valido(evs, ev),
        ev.llegada is Pulsa,
    ensures
        invariante(efecto(e, ev).0, evs.push(ev), salida + efecto(e, ev).1),
{
    broadcast use vstd::seq_lib::group_seq_properties;

    let k = ev.evdev;
    let mapa = ev.mapa;
    let (e2, mas) = efecto(e, ev);
    lema_empujar(evs, ev);
    let p = e.pulsadas;
    let fis = e.fisicas.push(k);
    let e1 = EstadoTraductor { fisicas: fis, pulsadas: p, tragar: e.tragar };
    assert(!e.fisicas.contains(k));
    assert(!e.tragar.contains(k));
    assert forall|v: Option<u32>| !(#[trigger] p.contains((k, v))) by {}
    assert(e2.fisicas == fis);
    assert(fis.no_duplicates()) by {
        assert forall|i: int, j: int| 0 <= i < fis.len() && 0 <= j < fis.len() && i != j implies fis[i]
            != fis[j] by {
            if i == e.fisicas.len() {
                assert(e.fisicas.contains(fis[j]));
            } else if j == e.fisicas.len() {
                assert(e.fisicas.contains(fis[i]));
            }
        }
    }
    let copilot = es_acorde_copilot(e1, k);
    assert(copilot == (k == KEY_F23 && abajo(evs, KEY_LEFTMETA) && !capturada(evs, KEY_LEFTMETA)
        && abajo(evs, KEY_LEFTSHIFT) && !capturada(evs, KEY_LEFTSHIFT))) by {
        assert(fis.contains(KEY_LEFTMETA) == e.fisicas.contains(KEY_LEFTMETA) || k == KEY_LEFTMETA);
        assert(fis.contains(KEY_LEFTSHIFT) == e.fisicas.contains(KEY_LEFTSHIFT) || k == KEY_LEFTSHIFT);
    }
    match destino_de(mapa, origen_de_pulsacion(e1, k)) {
        None => {
            assert(!es_acorde(evs, ev));
            assert(e2 == e1);
            assert(mas =~= seq![(k, true)]);
            assert(salida + mas =~= salida.push((k, true)));
            lema_anadir(salida, (k, true));
            assert(aporte(e, k) == Some(k));
            assert forall|c: u32| #[trigger] saldo(salida + mas, c) == retenida(e2, c) by {
                lema_cuenta_empujar(e.fisicas, k, produce(e2, c));
                assert forall|m: int| 0 <= m < e.fisicas.len() implies produce(e, c)(
                    #[trigger] e.fisicas[m],
                ) == produce(e2, c)(e.fisicas[m]) by {}
                lema_cuenta_igual(e.fisicas, produce(e, c), produce(e2, c));
            }
        },
        Some(d) => {
            let sd = salida_de(d);
            let p2 = p.push((k, sd));
            assert(e2.pulsadas == p2);
            assert(k != KEY_LEFTMETA && k != KEY_LEFTSHIFT);
            assert(p2.contains((k, sd)));
            assert(claves_unicas(p2)) by {
                assert(!p.contains((k, sd)));
                assert forall|i: int, j: int|
                    0 <= i < p2.len() && 0 <= j < p2.len() && i != j implies p2[i] != p2[j] by {
                    if i == p.len() {
                        assert(p.contains(p2[j]));
                    } else if j == p.len() {
                        assert(p.contains(p2[i]));
                    }
                }
                assert forall|x: (u32, Option<u32>), y: (u32, Option<u32>)|
                    p2.contains(x) && p2.contains(y) && x.0 == y.0 implies x == y by {
                    if x != (k, sd) {
                        assert(p.contains(x));
                    }
                    if y != (k, sd) {
                        assert(p.contains(y));
                    }
                }
            }
            lema_aporte_guardado(e2, k, sd);
            if copilot {
                assert(es_acorde(evs, ev));
                let t1 = e.tragar.push(KEY_LEFTMETA).push(KEY_LEFTSHIFT);
                assert(e2.tragar == t1);
                assert(e.fisicas.contains(KEY_LEFTMETA));
                assert(e.fisicas.contains(KEY_LEFTSHIFT));
                assert(!e.tragar.contains(KEY_LEFTMETA));
                assert(!e.tragar.contains(KEY_LEFTSHIFT));
                assert(t1.no_duplicates()) by {
                    let t0 = e.tragar.push(KEY_LEFTMETA);
                    assert forall|i: int, j: int|
                        0 <= i < t1.len() && 0 <= j < t1.len() && i != j implies t1[i] != t1[j] by {
                        let n = e.tragar.len() as int;
                        if i < n && j < n {
                        } else if i < n {
                            assert(e.tragar.contains(t1[i]));
                        } else if j < n {
                            assert(e.tragar.contains(t1[j]));
                        }
                    }
                }
                assert forall|v: Option<u32>| !(#[trigger] p.contains((KEY_LEFTMETA, v))) by {}
                assert forall|v: Option<u32>| !(#[trigger] p.contains((KEY_LEFTSHIFT, v))) by {}
                assert(aporte(e, KEY_LEFTMETA) == Some(KEY_LEFTMETA));
                assert(aporte(e, KEY_LEFTSHIFT) == Some(KEY_LEFTSHIFT));
                assert forall|v: Option<u32>| !(#[trigger] p2.contains((KEY_LEFTMETA, v))) by {
                    if p2.contains((KEY_LEFTMETA, v)) {
                        assert(p.contains((KEY_LEFTMETA, v)));
                    }
                }
                assert forall|v: Option<u32>| !(#[trigger] p2.contains((KEY_LEFTSHIFT, v))) by {
                    if p2.contains((KEY_LEFTSHIFT, v)) {
                        assert(p.contains((KEY_LEFTSHIFT, v)));
                    }
                }
                assert(aporte(e2, KEY_LEFTMETA) == None::<u32>);
                assert(aporte(e2, KEY_LEFTSHIFT) == None::<u32>);
                assert forall|j: u32|
                    j != k && j != KEY_LEFTMETA && j != KEY_LEFTSHIFT implies aporte(e, j)
                    == #[trigger] aporte(e2, j) by {
                    assert forall|w: Option<u32>| #[trigger] p.contains((j, w)) <==> p2.contains((j, w)) by {}
                    lema_aporte_igual(e, e2, j);
                }
                lema_filtrar(e.fisicas, KEY_LEFTMETA);
                let f1 = e.fisicas.filter(distinto_de(KEY_LEFTMETA));
                lema_filtrar(f1, KEY_LEFTSHIFT);
                let f2 = f1.filter(distinto_de(KEY_LEFTSHIFT));
                assert forall|c: u32| #[trigger] retenida(e2, c) == retenida(e, c) - (if c == KEY_LEFTMETA {
                    1int
                } else {
                    0int
                }) - (if c == KEY_LEFTSHIFT {
                    1int
                } else {
                    0int
                }) + (if sd == Some(c) {
                    1int
                } else {
                    0int
                }) by {
                    lema_cuenta_empujar(e.fisicas, k, produce(e2, c));
                    lema_cuenta_quitar(e.fisicas, KEY_LEFTMETA, produce(e2, c));
                    lema_cuenta_quitar(f1, KEY_LEFTSHIFT, produce(e2, c));
                    lema_cuenta_quitar(e.fisicas, KEY_LEFTMETA, produce(e, c));
                    lema_cuenta_quitar(f1, KEY_LEFTSHIFT, produce(e, c));
                    assert forall|m: int| 0 <= m < f2.len() implies produce(e, c)(#[trigger] f2[m])
                        == produce(e2, c)(f2[m]) by {
                        assert(f2.contains(f2[m]));
                        assert(f1.contains(f2[m]));
                    }
                    lema_cuenta_igual(f2, produce(e, c), produce(e2, c));
                }
                lema_cuenta_positiva(e.fisicas, KEY_LEFTMETA, produce(e, KEY_LEFTMETA));
                lema_cuenta_positiva(e.fisicas, KEY_LEFTSHIFT, produce(e, KEY_LEFTSHIFT));
                let s1 = salida.push((KEY_LEFTMETA, false));
                assert(saldo(salida, KEY_LEFTMETA) == retenida(e, KEY_LEFTMETA));
                lema_anadir(salida, (KEY_LEFTMETA, false));
                assert(saldo(s1, KEY_LEFTSHIFT) == retenida(e, KEY_LEFTSHIFT));
                lema_anadir(s1, (KEY_LEFTSHIFT, false));
                let s2 = s1.push((KEY_LEFTSHIFT, false));
                match sd {
                    Some(t) => {
                        assert(mas =~= seq![(KEY_LEFTMETA, false), (KEY_LEFTSHIFT, false), (t, true)]);
                        assert(salida + mas =~= s2.push((t, true)));
                        lema_anadir(s2, (t, true));
                    },
                    None => {
                        assert(mas =~= seq![(KEY_LEFTMETA, false), (KEY_LEFTSHIFT, false)]);
                        assert(salida + mas =~= s2);
                    },
                }
            } else {
                assert(!es_acorde(evs, ev));
                assert(e2.tragar == e.tragar);
                assert forall|j: u32| j != k implies aporte(e, j) == #[trigger] aporte(e2, j) by {
                    assert forall|w: Option<u32>| #[trigger] p.contains((j, w)) <==> p2.contains((j, w)) by {}
                    lema_aporte_igual(e, e2, j);
                }
                assert forall|c: u32| #[trigger] retenida(e2, c) == retenida(e, c) + (if sd == Some(c) {
                    1int
                } else {
                    0int
                }) by {
                    lema_cuenta_empujar(e.fisicas, k, produce(e2, c));
                    assert forall|m: int| 0 <= m < e.fisicas.len() implies produce(e, c)(
                        #[trigger] e.fisicas[m],
                    ) == produce(e2, c)(e.fisicas[m]) by {
                        assert(e.fisicas.contains(e.fisicas[m]));
                    }
                    lema_cuenta_igual(e.fisicas, produce(e, c), produce(e2, c));
                }
                match sd {
                    Some(t) => {
                        assert(mas =~= seq![(t, true)]);
                        assert(salida + mas =~= salida.push((t, true)));
                        lema_anadir(salida, (t, true));
                    },
                    None => {
                        assert(mas =~= Seq::<(u32, bool)>::empty());
                        assert(salida + mas =~= salida);
                    },
                }
            }
        },
    }
}

/// Una serie válida sin su último evento sigue siendo válida, y ese evento
/// podía llegar tras ella.
proof fn lema_serie_prefijo(evs: Seq<EventoFisico>)
    requires
        serie_valida(evs),
        evs.len() > 0,
    ensures
        serie_valida(evs.drop_last()),
        evento_valido(evs.drop_last(), evs.last()),
{
    let antes = evs.drop_last();
    assert forall|i: int| 0 <= i < antes.len() implies evento_valido(
        antes.take(i),
        #[trigger] antes[i],
    ) by {
        assert(antes.take(i) =~= evs.take(i));
        assert(antes[i] == evs[i]);
        assert(evento_valido(evs.take(i), evs[i]));
    }
    assert(evs.take(evs.len() - 1) =~= antes);
    assert(evento_valido(evs.take(evs.len() - 1), evs[evs.len() - 1]));
}

proof fn lema_recorrer(evs: Seq<EventoFisico>)
    requires
        serie_valida(evs),
    ensures
        invariante(recorrer(evs).0, evs, recorrer(evs).1),
    decreases evs.len(),
{
    if evs.len() == 0 {
        let (e, salida) = recorrer(evs);
        assert(salida =~= Seq::<(u32, bool)>::empty());
        assert forall|k: int, c: u32| 0 <= k <= salida.len() implies #[trigger] veces(
            salida.take(k),
            (c, false),
        ) <= veces(salida.take(k), (c, true)) by {
            assert(salida.take(k) =~= Seq::<(u32, bool)>::empty());
        }
    } else {
        let antes = evs.drop_last();
        let ev = evs.last();
        lema_serie_prefijo(evs);
        lema_recorrer(antes);
        let (e, salida) = recorrer(antes);
        assert(antes.push(ev) =~= evs);
        match ev.llegada {
            Llegada::Pulsa => lema_paso_pulsa(e, antes, salida, ev),
            Llegada::Suelta => lema_paso_suelta(e, antes, salida, ev),
            Llegada::Capturada => lema_paso_capturada(e, antes, salida, ev),
        }
    }
}

/// Ley: ninguna tecla se queda trabada. En cualquier serie de eventos
/// físicos sobre un traductor recién hecho, en la que cada tecla se pulsa
/// estando arriba y se suelta estando abajo, ningún mapa remapea Meta ni
/// Mayús y no hay dos acordes de Copilot en una misma pulsación de Meta o de
/// Mayús, lo que sale nunca suelta una tecla
/// que no tiene pulsada; y si al final no queda ninguna tecla física abajo, cada
/// tecla de la salida se ha soltado tantas veces como se pulsó.
pub proof fn ley_ninguna_tecla_se_queda_trabada(evs: Seq<EventoFisico>)
    requires
        serie_valida(evs),
    ensures
        sin_sueltas_de_mas(recorrer(evs).1),
        (forall|c: u32| !abajo(evs, c)) ==> equilibrada(recorrer(evs).1),
{
    lema_recorrer(evs);
    let (e, salida) = recorrer(evs);
    if forall|c: u32| !abajo(evs, c) {
        assert(e.fisicas =~= Seq::<u32>::empty()) by {
            if e.fisicas.len() > 0 {
                assert(e.fisicas.contains(e.fisicas[0]));
            }
        }
        assert forall|c: u32| #[trigger] veces(salida, (c, false)) == veces(salida, (c, true)) by {
            assert(saldo(salida, c) == retenida(e, c));
        }
    }
}

/// La última tecla que sale pulsada en `s`, si sale alguna.
pub open spec fn ultima_pulsada(s: Seq<(u32, bool)>) -> Option<u32>
    decreases s.len(),
{
    if s.len() == 0 {
        None
    } else if s.last().1 {
        Some(s.last().0)
    } else {
        ultima_pulsada(s.drop_last())
    }
}

proof fn lema_ninguna_pulsada(s: Seq<(u32, bool)>)
    requires
        forall|i: int| 0 <= i < s.len() ==> !(#[trigger] s[i]).1,
    ensures
        ultima_pulsada(s) is None,
    decreases s.len(),
{
    if s.len() > 0 {
        let t = s.drop_last();
        assert forall|i: int| 0 <= i < t.len() implies !(#[trigger] t[i]).1 by {
            assert(t[i] == s[i]);
        }
        lema_ninguna_pulsada(t);
        assert(!s[s.len() - 1].1);
    }
}

/// Ley: tras pulsar una tecla que no tenía nada pendiente (ni pulsación
/// guardada ni suelta por tragar), la autorrepetición de esa tecla repite la
/// última tecla que salió pulsada con ella, o nada si no salió ninguna.
pub proof fn ley_la_repeticion_repite_lo_que_salio(
    e: EstadoTraductor,
    mapa: Seq<(Origen, Destino)>,
    evdev: u32,
)
    requires
        !e.tragar.contains(evdev),
        pulsacion_de(e.pulsadas, evdev) is None,
    ensures
        repeticion_de(traducir_evento(e, mapa, evdev, true).0, evdev) == ultima_pulsada(
            traducir_evento(e, mapa, evdev, true).1,
        ),
{
    ley_se_suelta_lo_pulsado(e, mapa, mapa, evdev);
    let (e1, al_pulsar) = traducir_evento(e, mapa, evdev, true);
    match salida_de_pulsacion(e, mapa, evdev) {
        Some(t) => {
            assert(al_pulsar.last() == (t, true));
        },
        None => {
            lema_ninguna_pulsada(al_pulsar);
        },
    }
}

/// Ley: en una serie válida, tras una pulsación que se traduce, la
/// autorrepetición de esa tecla repite la última tecla que salió pulsada con
/// ella, o nada si no salió ninguna.
pub proof fn ley_repeticion_en_serie(evs: Seq<EventoFisico>, ev: EventoFisico)
    requires
        serie_valida(evs.push(ev)),
        ev.llegada is Pulsa,
    ensures
        repeticion_de(recorrer(evs.push(ev)).0, ev.evdev) == ultima_pulsada(
            efecto(recorrer(evs).0, ev).1,
        ),
{
    let todos = evs.push(ev);
    assert(todos.drop_last() =~= evs);
    assert(todos.last() == ev);
    lema_serie_prefijo(todos);
    lema_recorrer(evs);
    let e = recorrer(evs).0;
    let k = ev.evdev;
    assert(!abajo(evs, k));
    assert(!e.tragar.contains(k));
    assert(pulsacion_de(e.pulsadas, k) is None) by {
        if let Some(i) = pulsacion_de(e.pulsadas, k) {
            assert(es_primera_pulsada(e.pulsadas, k, i));
            assert(e.pulsadas.contains(e.pulsadas[i]));
        }
    }
    ley_la_repeticion_repite_lo_que_salio(e, ev.mapa, k);
}

/// Ley: en una serie válida, mientras siga abajo una tecla cuya pulsación se
/// quedó la captura, o Meta o Mayús tras un acorde de Copilot remapeado, pase
/// lo que pase con las demás teclas, esa tecla no se repite y su suelta no
/// saca nada, con el mapa que sea.
pub proof fn ley_suelta_tragada(evs: Seq<EventoFisico>, k: u32, mapa: Seq<(Origen, Destino)>)
    requires
        serie_valida(evs),
        capturada(evs, k) || ((k == KEY_LEFTMETA || k == KEY_LEFTSHIFT) && abajo(evs, k) && acordado(
            evs,
            k,
        )),
    ensures
        repeticion_de(recorrer(evs).0, k) is None,
        traducir_evento(recorrer(evs).0, mapa, k, false).1 == Seq::<(u32, bool)>::empty(),
{
    lema_recorrer(evs);
    let e = recorrer(evs).0;
    assert(e.tragar.contains(k));
    lema_posicion_contiene(e.tragar, k);
}

} // verus!
