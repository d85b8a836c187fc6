# virtual-node

The data and decisions behind a virtual DOM's elements, verified with Verus.

- `src/attributes.rs`: `Attributes`, an element's attributes kept as unique `(name, value)`
  pairs in insertion order, viewed as a map; order-insensitive equality; `AttributeValue`.
- `src/special_attributes.rs`: `SpecialAttributes`, the keyed on-create and on-remove hooks,
  the keyed element effect and the inner HTML; equality compares keys only.
- `src/hydration.rs`: how the children of a virtual element are matched against the children
  an existing DOM element already has (`HydrationCursor`, `plan_children`), and the UTF-16
  length of a text.
- `src/creation.rs`: where separator comments go between adjacent texts when children are
  created, and the proof that hydration reads back what creation made.
- `src/events.rs`: which event handlers are registered at once (delegated) and which are
  set aside, in order, to be attached at the end of hydration.
- `app/`: the browser side (`web_sys`, `js_sys`, `wasm_bindgen`): DOM writes, the closures that
  hooks and effects hold, and the driver that carries out a hydration plan.
