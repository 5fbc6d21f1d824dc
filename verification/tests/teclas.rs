use bookos_teclas::teclas::{Destino, EntradaJson, Origen, Remapeos};
use bookos_teclas::traductor::Traductor;

fn mapa(texto: &str) -> Remapeos {
    Remapeos::desde_texto(texto).expect("mapa de prueba válido")
}

fn entrada(origen: &str, destino: &str) -> EntradaJson {
    EntradaJson {
        origen: origen.to_string(),
        destino: destino.to_string(),
    }
}

/// El JSON de D-Bus leído como lo lee el servicio: una lista de objetos con
/// `origen` y `destino`.
fn desde_json(json: &str) -> Result<Remapeos, String> {
    let valor: serde_json::Value =
        serde_json::from_str(json).map_err(|e| format!("JSON no válido: {e}"))?;
    let lista = valor.as_array().ok_or_else(|| "JSON no válido".to_string())?;
    let entradas: Vec<EntradaJson> = lista
        .iter()
        .map(|e| entrada(e["origen"].as_str().unwrap(), e["destino"].as_str().unwrap()))
        .collect();
    Remapeos::desde_entradas(&entradas)
}

fn a_json(m: &Remapeos) -> String {
    let lista: Vec<serde_json::Value> = m
        .a_entradas()
        .into_iter()
        .map(|e| {
            let mut objeto = serde_json::Map::new();
            objeto.insert("origen".to_string(), serde_json::Value::String(e.origen));
            objeto.insert("destino".to_string(), serde_json::Value::String(e.destino));
            serde_json::Value::Object(objeto)
        })
        .collect();
    serde_json::Value::Array(lista).to_string()
}

fn secuencia_copilot(m: &Remapeos, t: &mut Traductor) -> Vec<(u32, bool)> {
    // La secuencia que manda el firmware: 125↓ 42↓ 193↓ 193↑ 42↑ 125↑.
    [
        (125, true),
        (42, true),
        (193, true),
        (193, false),
        (42, false),
        (125, false),
    ]
    .into_iter()
    .flat_map(|(codigo, pulsada)| t.traducir(m, codigo, pulsada))
    .collect()
}

#[test]
fn el_fichero_va_y_vuelve_igual() {
    let escritos = mapa("# comentario\ncopilot = ctrl_der\nevdev:190 = esc\nsupr = nada\n");
    assert_eq!(
        Remapeos::desde_texto(&escritos.a_texto()),
        Ok(escritos.clone())
    );
    assert_eq!(desde_json(&a_json(&escritos)), Ok(escritos));
}

#[test]
fn un_origen_repetido_se_rechaza() {
    let err = Remapeos::desde_texto("copilot = ctrl\ncopilot = alt\n").unwrap_err();
    assert!(err.contains("repetida"), "{err}");
}

#[test]
fn se_rechazan_nombres_y_codigos_invalidos() {
    assert!(Remapeos::desde_texto("fn = ctrl").is_err());
    assert!(Remapeos::desde_texto("evdev:0 = ctrl").is_err());
    assert!(Remapeos::desde_texto("evdev:768 = ctrl").is_err());
    assert!(desde_json(r#"[{"origen":"copilot","destino":"ctrl\nalt"}]"#).is_err());
}

#[test]
fn las_funciones_de_bookos_se_rechazan() {
    assert!(Remapeos::desde_texto("copilot = accion:launchpad").is_err());
    assert!(desde_json(r#"[{"origen":"menu","destino":"cmd:konsole"}]"#).is_err());
}

#[test]
fn sin_remapeo_las_teclas_pasan_tal_cual() {
    let mut t = Traductor::default();
    let vacio = Remapeos::default();
    assert_eq!(t.traducir(&vacio, 30, true), vec![(30, true)]);
    assert_eq!(t.traducir(&vacio, 30, false), vec![(30, false)]);
}

#[test]
fn copilot_a_ctrl_derecho_suelta_meta_y_mayus_una_sola_vez() {
    let m = mapa("copilot = ctrl_der");
    let mut t = Traductor::default();
    assert_eq!(
        secuencia_copilot(&m, &mut t),
        vec![
            (125, true),
            (42, true),
            (125, false),
            (42, false),
            (97, true),
            (97, false),
        ]
    );
}

#[test]
fn copilot_sin_remapeo_sale_como_llego() {
    let mut t = Traductor::default();
    assert_eq!(
        secuencia_copilot(&Remapeos::default(), &mut t),
        vec![
            (125, true),
            (42, true),
            (193, true),
            (193, false),
            (42, false),
            (125, false),
        ]
    );
}

#[test]
fn f23_sin_el_acorde_no_es_copilot() {
    let m = mapa("copilot = ctrl");
    let mut t = Traductor::default();
    assert_eq!(t.traducir(&m, 193, true), vec![(193, true)]);
}

#[test]
fn copilot_a_nada_no_deja_nada_pulsado() {
    let m = mapa("copilot = nada");
    let mut t = Traductor::default();
    assert_eq!(
        secuencia_copilot(&m, &mut t),
        vec![(125, true), (42, true), (125, false), (42, false)]
    );
}

#[test]
fn se_suelta_el_destino_con_el_que_se_pulso() {
    let mut t = Traductor::default();
    assert_eq!(
        t.traducir(&mapa("menu = ctrl"), 127, true),
        vec![(29, true)]
    );
    // Entre medias se recarga con otro destino.
    assert_eq!(
        t.traducir(&mapa("menu = alt"), 127, false),
        vec![(29, false)]
    );
}

#[test]
fn la_repeticion_repite_lo_que_salio() {
    let m = mapa("menu = ctrl\nsupr = nada");
    let mut t = Traductor::default();
    t.traducir(&m, 127, true);
    t.traducir(&m, 111, true);
    t.traducir(&m, 30, true);
    assert_eq!(t.repeticion(127), Some(29));
    assert_eq!(t.repeticion(111), None);
    assert_eq!(t.repeticion(30), Some(30));
}

#[test]
fn la_suelta_de_una_tecla_capturada_no_sale() {
    let mut t = Traductor::default();
    t.tragar_suelta(190);
    assert!(t.traducir(&Remapeos::default(), 190, false).is_empty());
}

// ---------------------------------------------------------------------------
// Pruebas propias

#[test]
fn el_texto_escrito_lleva_cabecera_y_una_linea_por_entrada() {
    let m = mapa("copilot = ctrl_der\nevdev:190 = esc\nsupr = nada");
    assert_eq!(
        m.a_texto(),
        "# Remapeo de teclas de BookOS: origen = destino.\n\
         copilot = ctrl_der\n\
         evdev:190 = esc\n\
         supr = nada\n"
    );
}

#[test]
fn los_remapeos_vacios_se_escriben_solo_con_la_cabecera() {
    assert_eq!(
        Remapeos::default().a_texto(),
        "# Remapeo de teclas de BookOS: origen = destino.\n"
    );
    assert_eq!(Remapeos::desde_texto(""), Ok(Remapeos::default()));
    assert_eq!(
        Remapeos::desde_texto("\n  \n# nada\n\r\n"),
        Ok(Remapeos::default())
    );
}

#[test]
fn las_entradas_llevan_los_textos_del_fichero() {
    let m = mapa("copilot = ctrl_der\nevdev:190 = esc\nsupr = nada");
    let e = m.a_entradas();
    let pares: Vec<(String, String)> = e.into_iter().map(|e| (e.origen, e.destino)).collect();
    assert_eq!(
        pares,
        vec![
            ("copilot".to_string(), "ctrl_der".to_string()),
            ("evdev:190".to_string(), "esc".to_string()),
            ("supr".to_string(), "nada".to_string()),
        ]
    );
}

#[test]
fn buscar_da_el_destino_de_cada_origen() {
    let m = mapa("copilot = ctrl_der\nevdev:190 = esc\nsupr = nada");
    assert_eq!(m.buscar(Origen::Copilot), Some(Destino::Tecla(97)));
    assert_eq!(m.buscar(Origen::Evdev(190)), Some(Destino::Tecla(1)));
    assert_eq!(m.buscar(Origen::Evdev(111)), Some(Destino::Nada));
    assert_eq!(m.buscar(Origen::Evdev(30)), None);
}

#[test]
fn un_codigo_con_nombre_se_escribe_con_su_nombre() {
    let m = mapa("evdev:29 = evdev:42");
    assert_eq!(m.buscar(Origen::Evdev(29)), Some(Destino::Tecla(42)));
    assert!(m.a_texto().ends_with("\nctrl = shift\n"));
}

#[test]
fn los_espacios_y_el_signo_del_codigo_se_aceptan() {
    let m = mapa("  evdev: +30\t=\u{a0}evdev:0031 ");
    assert_eq!(m.buscar(Origen::Evdev(30)), Some(Destino::Tecla(31)));
    let m = mapa("menu=alt");
    assert_eq!(m.buscar(Origen::Evdev(127)), Some(Destino::Tecla(56)));
}

#[test]
fn cada_error_dice_lo_que_falla() {
    assert_eq!(
        Remapeos::desde_texto("copilot ctrl"),
        Err("línea sin «=»: «copilot ctrl»".to_string())
    );
    assert_eq!(
        Remapeos::desde_texto("fn = ctrl"),
        Err("tecla desconocida: «fn»".to_string())
    );
    assert_eq!(
        Remapeos::desde_texto("evdev:x1 = ctrl"),
        Err("código evdev no válido: «evdev:x1»".to_string())
    );
    assert_eq!(
        Remapeos::desde_texto("evdev:-1 = ctrl"),
        Err("código evdev no válido: «evdev:-1»".to_string())
    );
    assert_eq!(
        Remapeos::desde_texto("evdev:99999999999 = ctrl"),
        Err("código evdev no válido: «evdev:99999999999»".to_string())
    );
    assert_eq!(
        Remapeos::desde_texto("evdev:768 = ctrl"),
        Err("código evdev fuera de rango: 768".to_string())
    );
    assert_eq!(
        Remapeos::desde_texto("evdev:0 = ctrl"),
        Err("código evdev fuera de rango: 0".to_string())
    );
    assert_eq!(
        Remapeos::desde_texto("copilot = cmd:konsole"),
        Err("«cmd:konsole» solo existe en el escritorio BookOS; aquí una tecla solo puede ser otra tecla o nada".to_string())
    );
    assert_eq!(
        Remapeos::desde_texto("menu = ctrl\nevdev:127 = alt"),
        Err("la tecla «menu» está repetida".to_string())
    );
    assert_eq!(
        Remapeos::desde_texto("nada = ctrl"),
        Err("tecla desconocida: «nada»".to_string())
    );
}

#[test]
fn el_primer_error_es_el_que_se_cuenta() {
    assert_eq!(
        Remapeos::desde_texto("fn = ctrl\nsin igual"),
        Err("tecla desconocida: «fn»".to_string())
    );
    assert_eq!(
        Remapeos::desde_entradas(&vec![entrada("menu", "ctrl"), entrada("copilot", "accion:x")]),
        Err("«accion:x» solo existe en el escritorio BookOS; aquí una tecla solo puede ser otra tecla o nada".to_string())
    );
}

#[test]
fn las_entradas_se_recortan() {
    let m = Remapeos::desde_entradas(&vec![entrada(" copilot\n", "\tctrl ")]).unwrap();
    assert_eq!(m.buscar(Origen::Copilot), Some(Destino::Tecla(29)));
}

#[test]
fn una_tecla_capturada_tampoco_se_repite() {
    let mut t = Traductor::default();
    t.tragar_suelta(190);
    assert_eq!(t.repeticion(190), None);
}

#[test]
fn el_acorde_de_copilot_se_reconoce_con_meta_y_mayus() {
    let mut t = Traductor::default();
    let vacio = Remapeos::default();
    assert!(!t.es_copilot(193));
    t.traducir(&vacio, 125, true);
    assert!(!t.es_copilot(193));
    t.traducir(&vacio, 42, true);
    assert!(t.es_copilot(193));
    assert!(!t.es_copilot(30));
    t.traducir(&vacio, 42, false);
    assert!(!t.es_copilot(193));
}

#[test]
fn soltar_lo_pulsado_no_deja_nada_guardado() {
    let m = mapa("menu = ctrl\nsupr = nada");
    let mut t = Traductor::default();
    t.traducir(&m, 127, true);
    t.traducir(&m, 111, true);
    assert_eq!(t.traducir(&Remapeos::default(), 111, false), vec![]);
    assert_eq!(t.traducir(&Remapeos::default(), 127, false), vec![(29, false)]);
    assert_eq!(t.repeticion(127), Some(127));
    assert_eq!(t.traducir(&Remapeos::default(), 127, false), vec![(127, false)]);
}

#[test]
fn sin_fichero_o_con_uno_roto_no_hay_remapeos() {
    let (vacio, error) = Remapeos::de_fichero(None);
    assert_eq!(vacio, Remapeos::default());
    assert_eq!(error, None);

    let (roto, error) = Remapeos::de_fichero(Some("copilot = ctrl\nfn = alt\n"));
    assert_eq!(roto, Remapeos::default());
    assert_eq!(error, Some("tecla desconocida: «fn»".to_string()));

    let (bueno, error) = Remapeos::de_fichero(Some("copilot = ctrl\n"));
    assert_eq!(bueno.buscar(Origen::Copilot), Some(Destino::Tecla(29)));
    assert_eq!(error, None);
}

#[test]
fn una_copia_tiene_los_mismos_remapeos() {
    let m = mapa("copilot = ctrl_der\nmenu = nada\n");
    let copia = m.clone();
    assert_eq!(copia, m);
    assert_eq!(copia.a_texto(), m.a_texto());
}

#[test]
fn un_destino_con_salto_de_linea_no_es_una_tecla() {
    assert_eq!(
        Remapeos::desde_entradas(&vec![entrada("copilot", "ctrl\n")]),
        Err("tecla desconocida: «ctrl»".to_string())
    );
    assert!(desde_json(r#"[{"origen":"copilot","destino":"\nctrl"}]"#).is_err());
    assert!(desde_json(r#"[{"origen":"copilot","destino":" ctrl "}]"#).is_ok());
}

#[test]
fn una_suelta_tragada_sigue_tragada_pase_lo_que_pase() {
    let m = mapa("menu = alt");
    let mut t = Traductor::default();
    t.tragar_suelta(31);
    assert_eq!(t.traducir(&m, 127, true), vec![(56, true)]);
    assert_eq!(t.traducir(&m, 30, true), vec![(30, true)]);
    assert_eq!(t.traducir(&m, 30, false), vec![(30, false)]);
    assert_eq!(t.repeticion(31), None);
    assert_eq!(t.traducir(&m, 31, false), vec![]);
    assert_eq!(t.traducir(&m, 127, false), vec![(56, false)]);
}

#[test]
fn tras_el_acorde_se_repite_el_destino_de_copilot() {
    let m = mapa("copilot = ctrl_der");
    let mut t = Traductor::default();
    t.traducir(&m, 125, true);
    t.traducir(&m, 42, true);
    assert_eq!(t.traducir(&m, 193, true), vec![(125, false), (42, false), (97, true)]);
    assert_eq!(t.repeticion(193), Some(97));
    assert_eq!(t.repeticion(125), None);
    assert_eq!(t.repeticion(42), None);
}
