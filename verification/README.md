# glmm

Fit bookkeeping for generalized linear mixed models, verified with Verus.

The library decides and reports; numerical kernels search and factor. It

- sizes a model from the levels of its rows (`sizing`), checks its shape (`shape`)
  and picks the solver (`routing`);
- lays out the random effects (`groupings`, `layout`) and keeps one workspace per
  shape for draw after draw (`workspace`, `draw`);
- drops redundant columns from a problem and reports the reduced fit over all
  columns (`rank`);
- turns what a kernel left behind into a report: standard errors and covariance
  (`inference`), variance components (`varcorr`), conditional modes and means
  (`ranef`, `fitted`), diagnostics (`diagnostics`), and the fit itself (`fit`,
  `lmm`, `glmm`, `view`, `perm`), with random slopes in the units of their columns
  (`units`).

Numbers are any type with the operations of `scalar::Scalar`. `exact::Exact` is
one: whole numbers, undefined where a result is not exact. Contracts say which
operations are applied to which entries, in which order, so they hold of rounding
arithmetic as well. `app/` supplies double-precision floats and runs the kernels.
