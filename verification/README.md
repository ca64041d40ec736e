# AutoMass

Control software of a balancing rig: four masses travel on rails under a
platform and keep it level. A model-predictive loop or a linear-quadratic loop
reads encoders and an attitude sensor over one serial bus and commands the
motors.

- `src/` is the control library, verified with Verus. It holds the wire
  protocols, the decisions of both control loops, the layout of the models and
  of the quadratic programs, the handling of the operator's commands, and the
  state of the operator's console. Every byte that goes over the bus is sent
  from here.
- `app/` is the program around it: the serial port, the window, the files, and the
  linear algebra of the filter and the solvers. The library asks for a
  computation, and the program hands back the result.
- `tests/` runs the library on a bus without hardware, with the numerical
  crates doing the numbers.

Quantities travel through the library as `Scalar`, the bit pattern of a binary64
number. The library compares, limits and negates them exactly, and adds, subtracts,
multiplies and divides them as the machine does, rounding to the nearest number.
