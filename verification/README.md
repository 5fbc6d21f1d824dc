# bookos_teclas

Remapeo de teclas de BookOS, con su lógica verificada con Verus.

- `src/` es la biblioteca verificada:
  - `teclas`: el formato de `/etc/bookos/teclas.conf` y de las entradas de
    D-Bus (orígenes, destinos, lectura, escritura y validación), con las leyes
    de ida y vuelta.
  - `traductor`: la traducción de cada evento de un teclado físico, Copilot
    incluido. Sus leyes dicen qué sale en cada caso y, para cualquier serie de
    eventos en la que cada tecla se pulsa estando arriba y se suelta estando
    abajo, ningún mapa remapea Meta ni Mayús y no hay dos acordes de Copilot
    en una misma pulsación de Meta o de Mayús, que la salida nunca suelta una
    tecla que no tiene pulsada y, si al final no queda ninguna tecla física
    abajo, lo suelta todo; también qué repite la autorrepetición y que una
    suelta tragada sigue tragada hasta que llega.
  - `servicio`, `vistos`, `uinput`: las decisiones del servicio que captura
    los teclados (qué hacer con cada evento, qué nodos son teclados, qué
    pilotos encender, qué teclas declara el teclado virtual y con qué ioctls).
    Las leyes del sondeo dicen que un nodo se captura una sola vez mientras
    sigue presente, que uno que no es teclado no se vuelve a abrir y que el que
    desaparece se olvida.
  - `leyendas`, `escritorio`: lo que decide la interfaz gráfica (qué se dibuja
    con lo que responde xkb, quién aplica los remapeos).
  - `texto`, `nombres`: recortes, líneas y números decimales, y la tabla de
    nombres de tecla.
- `app/` es el servicio `bookos-teclasd` (evdev, uinput, D-Bus, polkit) y las
  órdenes de la interfaz (D-Bus, xkb, paleta): solo entrada y salida, que
  llaman a la biblioteca para cada decisión.
- `tests/` prueba la biblioteca desde fuera.
