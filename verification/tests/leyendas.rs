use bookos_teclas::escritorio::{debe_desarmar, elegir_motor, resultado_de_aplicar, Motor};
use bookos_teclas::leyendas::{
    leyenda, leyenda_altgr, mascara_de_modificador, separar_distribucion, teclas, MOD_INVALID,
};

#[test]
fn las_teclas_del_dibujo_van_en_su_orden() {
    let t = teclas();
    assert_eq!(t.len(), 1 + 12 + 12 + 11 + 2 + 10);
    assert_eq!(&t[..4], &[41, 2, 3, 4]);
    assert_eq!(&t[35..38], &[40, 43, 86]);
    assert_eq!(*t.last().unwrap(), 53);
}

#[test]
fn una_variante_entre_parentesis_se_separa() {
    assert_eq!(
        separar_distribucion("es(cat)"),
        ("es".to_string(), "cat".to_string())
    );
    assert_eq!(separar_distribucion("es"), ("es".to_string(), String::new()));
    assert_eq!(
        separar_distribucion("us(intl))"),
        ("us".to_string(), "intl".to_string())
    );
    assert_eq!(
        separar_distribucion("de(nodeadkeys"),
        ("de".to_string(), "nodeadkeys".to_string())
    );
}

#[test]
fn un_modificador_que_falta_no_se_aplica() {
    assert_eq!(mascara_de_modificador(MOD_INVALID), 0);
    assert_eq!(mascara_de_modificador(0), 1);
    assert_eq!(mascara_de_modificador(7), 0x80);
}

#[test]
fn las_teclas_muertas_llevan_su_acento() {
    assert_eq!(leyenda("e", "e"), "e");
    assert_eq!(leyenda("", "dead_grave"), "`");
    assert_eq!(leyenda("", "dead_acute"), "´");
    assert_eq!(leyenda("\u{1b}", "dead_circumflex"), "^");
    assert_eq!(leyenda("", "Shift_L"), "");
}

#[test]
fn sin_nivel_de_altgr_no_hay_leyenda() {
    assert_eq!(leyenda_altgr(&"1".to_string(), "1".to_string()), "");
    assert_eq!(leyenda_altgr(&"1".to_string(), "|".to_string()), "|");
}

#[test]
fn el_compositor_manda_si_sabe_remapear() {
    assert_eq!(elegir_motor(true, true), Some(Motor::Escritorio));
    assert_eq!(elegir_motor(false, true), Some(Motor::Sistema));
    assert_eq!(elegir_motor(false, false), None);
    assert_eq!(Motor::Escritorio.nombre(), "escritorio");
    assert_eq!(Motor::Sistema.nombre(), "sistema");
}

#[test]
fn aplicar_devuelve_el_error_del_motor() {
    assert_eq!(resultado_de_aplicar(true, String::new()), Ok(()));
    assert_eq!(
        resultado_de_aplicar(false, "mal".to_string()),
        Err("mal".to_string())
    );
    assert!(debe_desarmar(3, 3));
    assert!(!debe_desarmar(4, 3));
}
