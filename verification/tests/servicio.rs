use bookos_teclas::servicio::{
    decidir_nodo, es_teclado, eventos_leds, fijar_led, nodo_de_eventos, pide_captura, Accion, PasoNodo,
};
use bookos_teclas::teclas::Remapeos;
use bookos_teclas::traductor::Traductor;

#[test]
fn los_modificadores_no_se_capturan() {
    for m in [29, 97, 42, 54, 56, 100, 125, 126] {
        assert!(!pide_captura(m, 1));
    }
    assert!(pide_captura(30, 1));
    assert!(!pide_captura(30, 0));
    assert!(!pide_captura(30, 2));
}

#[test]
fn atender_repite_captura_o_traduce() {
    let m = Remapeos::desde_texto("menu = ctrl").unwrap();
    let mut t = Traductor::default();
    assert_eq!(t.atender(&m, 127, 1, false), Accion::Enviar(vec![(29, true)]));
    assert_eq!(t.atender(&m, 127, 2, false), Accion::Repetir(29));
    assert_eq!(t.atender(&m, 127, 0, false), Accion::Enviar(vec![(29, false)]));
    assert_eq!(t.atender(&m, 30, 1, true), Accion::Capturada { evdev: 30, copilot: false });
    assert_eq!(t.atender(&m, 30, 2, false), Accion::Ninguna);
    assert_eq!(t.atender(&m, 30, 0, false), Accion::Enviar(vec![]));
    // Un modificador pasa aunque la captura esté armada.
    assert_eq!(t.atender(&m, 42, 1, true), Accion::Enviar(vec![(42, true)]));
}

#[test]
fn la_captura_reconoce_copilot() {
    let vacio = Remapeos::default();
    let mut t = Traductor::default();
    t.atender(&vacio, 125, 1, true);
    t.atender(&vacio, 42, 1, true);
    assert_eq!(t.atender(&vacio, 193, 1, true), Accion::Capturada { evdev: 193, copilot: true });
}

#[test]
fn los_leds_copian_cada_bit_de_la_mascara() {
    let eventos = eventos_leds(0b101);
    assert_eq!(eventos.len(), 16);
    assert_eq!(eventos[0], (0, 1));
    assert_eq!(eventos[1], (1, 0));
    assert_eq!(eventos[2], (2, 1));
    assert_eq!(eventos[15], (15, 0));
}

#[test]
fn fijar_un_led_solo_cambia_ese_bit() {
    assert_eq!(fijar_led(0b100, 1, 1), 0b110);
    assert_eq!(fijar_led(0b110, 1, 0), 0b100);
    assert_eq!(fijar_led(0, 15, 7), 0x8000);
    assert_eq!(fijar_led(0xffff, 0, 0), 0xfffe);
}

#[test]
fn solo_se_capturan_teclados_de_verdad() {
    assert!(es_teclado(Some("Logitech USB Keyboard"), true, false, false));
    assert!(es_teclado(None, true, false, false));
    assert!(!es_teclado(Some("BookOS Teclas"), true, false, false));
    assert!(!es_teclado(Some("Receptor"), true, true, false));
    assert!(!es_teclado(Some("Tableta"), true, false, true));
    assert!(!es_teclado(Some("Botones"), false, false, false));
}

#[test]
fn los_nodos_de_eventos_empiezan_por_event() {
    assert!(nodo_de_eventos(b"event3"));
    assert!(!nodo_de_eventos(b"mouse0"));
    assert!(!nodo_de_eventos(b"even"));
}

#[test]
fn un_nodo_nuevo_se_descarta_se_espera_o_se_captura() {
    assert_eq!(decidir_nodo(false, false), PasoNodo::Descartar);
    assert_eq!(decidir_nodo(false, true), PasoNodo::Descartar);
    assert_eq!(decidir_nodo(true, true), PasoNodo::Esperar);
    assert_eq!(decidir_nodo(true, false), PasoNodo::Capturar);
}

#[test]
fn en_una_serie_entera_ninguna_tecla_se_queda_trabada() {
    let m = Remapeos::desde_texto("copilot = ctrl_der\nmenu = alt\nsupr = nada\n").unwrap();
    let mut t = Traductor::default();
    // (código, valor, captura armada)
    let eventos = [
        (30, 1, false),
        (125, 1, false),
        (42, 1, false),
        (193, 1, false),
        (127, 1, false),
        (111, 1, false),
        (30, 0, false),
        (193, 0, false),
        (42, 0, false),
        (31, 1, true),
        (127, 0, false),
        (111, 0, false),
        (125, 0, false),
        (31, 0, false),
    ];
    let mut salida: Vec<(u32, bool)> = Vec::new();
    for (codigo, valor, armada) in eventos {
        match t.atender(&m, codigo, valor, armada) {
            Accion::Enviar(v) => salida.extend(v),
            Accion::Capturada { evdev, copilot } => assert_eq!((evdev, copilot), (31, false)),
            otra => panic!("acción inesperada: {otra:?}"),
        }
        let mut pulsadas: std::collections::HashMap<u32, i32> = std::collections::HashMap::new();
        for (c, p) in &salida {
            *pulsadas.entry(*c).or_default() += if *p { 1 } else { -1 };
            assert!(pulsadas[c] >= 0, "se soltó {c} sin tenerla pulsada: {salida:?}");
        }
    }
    let mut saldo: std::collections::HashMap<u32, i32> = std::collections::HashMap::new();
    for (c, p) in &salida {
        *saldo.entry(*c).or_default() += if *p { 1 } else { -1 };
    }
    assert!(saldo.values().all(|&v| v == 0), "{salida:?}");
    assert!(salida.contains(&(97, true)) && salida.contains(&(56, true)));
}
