# section_builder_v2

Builds CUFSM finite-strip models (node and element tables) from an ordered
polyline of sharp-corner centerline points: every interior corner is rounded
with one radius, arcs get at least 4 sub-elements per 90 degrees of bend and
at least `elements_per_segment`, and every straight run is split into
`max(2, elements_per_segment)` equal pieces.

Layout:

- `src/` – the verified library. It is generic over the point and scalar
  types and decides which points a model consists of and in which order
  (`geometry::rounding`, `geometry::mesh`, `geometry::section_plan`), and how
  they become node and element rows (`geometry::to_cufsm_model`,
  `cufsm`). `geometry::laws` states and proves what holds of every rounded
  and meshed polyline, and `geometry::symmetry` how rounding, meshing and
  planning commute with mapping the points and with reversing the polyline.
- `app/` – the `f64` side: corner measurement (angles, trim offsets, arc
  centers), evaluation of arc and interpolation points,
  `build_finite_strip_model`, and the C ABI (`sb_*` functions).
- `tests/` – tests of the library on concrete inputs.
