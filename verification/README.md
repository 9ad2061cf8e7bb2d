# lobedo_core

The verified core of a node-based geometry editor: the node graph and its
evaluation with caching (stated node by node against the evaluation rules, with
the depth-first order of `topo_sort_from` given exactly), the evaluation of a
geometry graph (node kinds looked up by name, input policies and their messages,
stored outputs and their clearing after a failure), group expressions and name patterns, meshes with their
attributes and groups (merging, copying, deleting elements), the connectivity of
polygon meshes (adjacency, selection masks carried between points, corners and
polygons, attribute promotion mappings), the Group, Group Expand, Delete, Merge
and Attribute Math node operations, Gaussian splat sets (their attributes,
group selection and merging), the element bookkeeping of Attribute Noise and the
sample gathering and per-attribute writing of Attribute Transfer on meshes and on
splats, integer attribute operations, string tables,
images, the byte stores behind assets and downloads, and the built-in node kinds'
definitions and default parameters.

- `src/` is the library, written in Verus: every function carries a contract
  that Verus proves. Float values are carried as their IEEE-754 bit patterns;
  where a float must be computed (a point inside a shape, float arithmetic on
  attribute values), the library takes the answer from its caller.
- `tests/` exercises the library on concrete values.
- `app/` is the ordinary Rust around it: the process-wide stores, fetching from
  the web, timing of evaluations, float parameters, the float tests and
  arithmetic that the Group, Delete and Attribute Math nodes need, the
  nearest-sample search and value combination of Attribute Transfer, the
  mean-based attribute promotions, and serialisable copies of graph identifiers.
