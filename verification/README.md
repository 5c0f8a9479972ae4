# Planetary bodies: addressing, fates and their checks, verified

A library for the planetary layer of a galaxy simulation, written in Verus and proved against
its contracts:

- the 16-bit body index, `slot << 8 | sub`, with its exact layout table (33,936 of the 65,536
  values are bodies), its round trips, parents and order;
- a body's history on its host (formation, the segments of its life between the host's sudden
  deaths, its ending) and its state at any time, a prefix of not yet formed → present → gone;
- the search for a body's engulfment, a scan then an exact halving, and the scattering of
  unsettled neighbours after a supernova, pair by pair in slot order, which ends in at most
  n − 1 passes; both histories and scatterings are fixed by the models they are given;
- the checks and the kinds of the derivation (placed bodies, body hosts, host light and
  illumination, tidal planets, core compositions, discs, formation, circularisation, habitable
  zones, the composition solve's inputs), and the messages of every error.

The physical models are floating point, which the verified library never computes with: it
carries measured values in the caller's type, decides from their classes, and takes what the
models find (a clearance, an aftermath, a pair's scattering) as arguments or closures.

Layout:

- `src/`: the verified library, one module per concern; `lib.rs` lists them.
- `tests/`: tests of the library on concrete values.
- `app/`: the glue from `f64` to the classes the library reads, and those of the
  floating-point models that stand on their own: the habitable zone's limits, the engulfment
  reach and scan, the snow line, isolation mass, Roche and Hill limits, flux, internal heat,
  formation ages, the Safronov number and the ejection eccentricity law. The models built on
  orbits, star tracks and the random streams (a host's mass and radius at a time, a body's
  orbit after a supernova, a recoil or a merger, the radius and composition solves) are not
  part of this crate; a caller hands the library what they find, as closures or values.
