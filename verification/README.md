# traffic_control

A simulation of a four-way intersection with a dynamic traffic-light
controller, written in Verus.

* `src/` is the verified library:
  * `direction` – the four approaches and the three routes;
  * `geometry` – fixed-point positions (320 units per pixel), integer square
    root, and one frame of movement towards a waypoint;
  * `path` – the waypoints of every approach and route, including the
    quadratic turning curves;
  * `controller` – the four-phase light controller (green, yellow, all-red),
    its congestion rule and the lamp shown to each approach;
  * `vehicle` – spawning clearance, priority between vehicles, position
    prediction, the per-frame wait decision and movement of all vehicles,
    lane queues;
  * `simulation` – the whole intersection: spawning (from keys, with random
    approach and route) and the per-frame step;
  * `font`, `display` – the 5x7 bitmap font and text layout, disc spans,
    dashboard congestion levels and sprite placement.
* `app/` is the SDL2 program: window, keyboard, frame loop and drawing.
* `tests/` holds the tests.

Time is kept in microseconds; one frame at 60 frames per second is
16 667 microseconds.
