# dim_slam

Visual-inertial odometry: a visual front end around an outside tracker, and an error-state Kalman
filter that fuses its poses with other odometry sources and an IMU. The library is written in Verus:
every function carries a contract, and the contracts are proved.

## Layout

- `src/` is the verified library.
  - `odometry_fusion.rs`, `fusion_model.rs`, `estimator.rs`, `eskf.rs`: the fusion, its buffer of
    replayable steps, one step, and the filter underneath.
  - `cuvslam_odometry.rs`, `cuvslam_model.rs`, `rig.rs`, `tracker.rs`: the visual front end. The
    tracker is run by the caller; an input gives back the step that is due.
  - `depth_cloud.rs`, `depth_reproject.rs`, `depth_pixels.rs`, `fused_depth.rs`: depth images.
  - `dim_slam_core.rs`, `node.rs`: the two halves together.
  - `formulas.rs`, `numerics.rs`, `scalar.rs`: numbers are held by their bit patterns, and every
    formula is written out in the operations of the trait `Numerics`.
  - `fusion_laws.rs`, `cuvslam_laws.rs`, `track_runs.rs`: what holds of the two halves.
  - `fusion_replay.rs`, `visual_replay.rs`, `core_replay.rs`, on `repeatability.rs` and
    `depth_replay.rs`: replaying a recording gives the same outputs bit for bit, provided that
    the arithmetic, the transforms and the tracker answer alike both times; and events within the
    buffer's reach leave the same estimate whatever order they arrive in.
- `tests/` runs the library with arithmetic by nalgebra.
- `app/` holds the Python bindings, the node, the tracker's and the depth model's runners, the
  warnings and the configuration files.

## Numbers

The library does no floating point of its own. `Scalar` and `Single` are bit patterns; comparing,
negating and telling finite from not are done and proved on the bits. Everything else goes through
`Numerics`, about which nothing is assumed: a contract says which operation is applied to which
values and what becomes of the result.
