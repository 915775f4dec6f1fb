# a_sabr_verified

Schedule-aware bundle routing for delay-tolerant networks, with its contracts proved by Verus.

The library (`src/`) holds:

- `contact`, `contact_manager` (legacy EVL/ETO/QD managers with priorities and budgets,
  segmentation managers): what a contact can carry and when, with dry runs and bookings;
- `node`, `node_manager`: node resources;
- `contact_plan` (A-SABR, ION and TVG-util plans) and `multigraph`: reading contact plans and
  building the contact multigraph;
- `distance`, `pathfinding` (Dijkstra with node or contact parenting, contact suppression,
  destinations, committing and checking paths again, and the bookkeeping of hybrid parenting):
  building trees of best paths;
- `route_storage` (routing table, ring-buffer cache, guard) and `routing` (router, storage in
  front of a pathfinder): reusing path trees across bundles.

`app/` is the command-line program: it reads a plan file, builds the multigraph and searches a
path with the storage-backed router. `tests/` exercises the library on concrete plans.
