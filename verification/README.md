# drone_jepa

Quadrotor dynamics, tracking control, gate racing with sampling planners, inference of the
SkyJEPA world model and of a racing policy, and the demonstrations built on them.

- `src/` is the library. It is written in Verus: each function states the exact expression
  it evaluates, and the laws of the library are public proof functions whose names start
  with `law_`. All of it is generic over the arithmetic in `src/scalar.rs`; laws that a
  rounding arithmetic meets only approximately ask for `exact`. What holds of single and
  double precision as it stands asks for `ordered` (comparisons do not round) or `floating`
  (rounding to nearest, overflow to infinity included): the limits of the planners and of
  the motors are laws of that kind.
- `tests/` run the library in double precision.
- `app/` holds what the library does not touch: browser bindings, the world model on
  tensors, the C interface of the training environments, and settings from the environment.
