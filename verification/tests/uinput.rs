use bookos_teclas::uinput::{
    iow, led_fijado, teclas, EV_KEY, EV_LED, TAM_C_INT, TAM_UINPUT_SETUP, UI_DEV_CREATE, UI_DEV_SETUP, UI_SET_EVBIT, UI_SET_KEYBIT,
    UI_SET_LEDBIT,
};

#[test]
fn las_peticiones_coinciden_con_las_de_linux() {
    // Valores de `<linux/uinput.h>` en x86_64.
    assert_eq!(UI_DEV_CREATE, 0x5501);
    assert_eq!(UI_DEV_SETUP, 0x405c5503);
    assert_eq!(UI_SET_EVBIT, 0x40045564);
    assert_eq!(UI_SET_KEYBIT, 0x40045565);
    assert_eq!(UI_SET_LEDBIT, 0x40045569);
}

#[test]
fn iow_compone_las_mismas_peticiones() {
    assert_eq!(iow(3, TAM_UINPUT_SETUP), UI_DEV_SETUP);
    assert_eq!(iow(100, TAM_C_INT), UI_SET_EVBIT);
    assert_eq!(iow(105, TAM_C_INT), 0x40045569);
}

#[test]
fn el_teclado_virtual_declara_todo_menos_los_botones() {
    let t = teclas();
    assert_eq!(t.len(), 255 + (0x2c0 - 0x160) + (0x300 - 0x2e8));
    assert_eq!(t[0], 1);
    assert_eq!(*t.last().unwrap(), 0x2ff);
    assert!(t.contains(&0xff));
    assert!(!t.contains(&0x100));
    assert!(!t.contains(&0x15f));
    assert!(t.contains(&0x160));
    assert!(!t.contains(&0x2c0));
    assert!(t.contains(&0x2e8));
    assert!(t.windows(2).all(|w| w[0] < w[1]));
}

#[test]
fn solo_se_leen_los_led_que_existen() {
    assert_eq!(led_fijado(EV_LED, 1, 1), Some((1, 1)));
    assert_eq!(led_fijado(EV_LED, 15, 0), Some((15, 0)));
    assert_eq!(led_fijado(EV_LED, 16, 1), None);
    assert_eq!(led_fijado(EV_KEY, 1, 1), None);
}
