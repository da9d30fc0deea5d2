# categorical_coordination

Category theory for multi-agent coordination, verified with Verus: agents are
objects, messages are morphisms, coordination strategies are functors, protocol
upgrades are natural transformations, and pullbacks/pushouts merge and split teams.

Layout of `src/`:

- `names` – identifier conventions (`"id_"` marks identity morphisms).
- `strmap`, `table` – string-keyed maps and the composition table, kept as
  association lists in insertion order, each with a mathematical `Map` view and
  a type invariant tying the two together.
- `category` – `Morphism`, `Category` and the `CategoryModel` every contract is
  stated over; `category_laws` – what the operations keep and how they relate.
- `functor`, `natural` – functors and natural transformations, with the exact
  conditions their checks decide.
- `limits` – pullbacks and pushouts; `protocol` – coordination protocols.

`app/` holds a copy of `Morphism` that implements `Display`.
