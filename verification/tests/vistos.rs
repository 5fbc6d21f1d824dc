use bookos_teclas::vistos::{Apertura, Vistos};

fn ruta(s: &str) -> Vec<u8> {
    s.as_bytes().to_vec()
}

#[test]
fn lo_recordado_se_reconoce() {
    let mut v = Vistos::nuevo();
    assert!(!v.contiene(b"/dev/input/event3"));
    v.recordar(ruta("/dev/input/event3"));
    assert!(v.contiene(b"/dev/input/event3"));
    assert!(!v.contiene(b"/dev/input/event30"));
    assert!(!v.contiene(b"/dev/input/event"));
}

#[test]
fn recordar_dos_veces_es_recordar_una() {
    let mut v = Vistos::nuevo();
    v.recordar(ruta("/dev/input/event1"));
    v.recordar(ruta("/dev/input/event1"));
    v.retener(&vec![]);
    assert!(!v.contiene(b"/dev/input/event1"));
}

#[test]
fn lo_que_desaparece_se_olvida() {
    let mut v = Vistos::nuevo();
    v.recordar(ruta("/dev/input/event1"));
    v.recordar(ruta("/dev/input/event2"));
    v.recordar(ruta("/dev/input/event4"));
    v.retener(&vec![ruta("/dev/input/event2"), ruta("/dev/input/event5")]);
    assert!(!v.contiene(b"/dev/input/event1"));
    assert!(v.contiene(b"/dev/input/event2"));
    assert!(!v.contiene(b"/dev/input/event4"));
    assert!(!v.contiene(b"/dev/input/event5"));
}

#[test]
fn tras_abrir_un_nodo_se_recuerda_o_se_captura() {
    let mut v = Vistos::nuevo();
    assert!(!v.tras_abrir(ruta("/dev/input/event1"), Apertura::NoSeAbre));
    assert!(!v.contiene(b"/dev/input/event1"));
    assert!(!v.tras_abrir(
        ruta("/dev/input/event2"),
        Apertura::Abierto { teclado: false, tecla_abajo: false }
    ));
    assert!(v.contiene(b"/dev/input/event2"));
    assert!(!v.tras_abrir(
        ruta("/dev/input/event3"),
        Apertura::Abierto { teclado: true, tecla_abajo: true }
    ));
    assert!(!v.contiene(b"/dev/input/event3"));
    assert!(v.tras_abrir(
        ruta("/dev/input/event3"),
        Apertura::Abierto { teclado: true, tecla_abajo: false }
    ));
    assert!(v.contiene(b"/dev/input/event3"));
}
