# bacon_sci

Dense polynomials over a coefficient type with the usual arithmetic, and the
Legendre, Hermite and Laguerre families, verified with Verus.

- `src/polynomial.rs`: the `Polynomial` type (coefficients lowest power first),
  Horner evaluation, evaluation with the derivative, setting and purging
  coefficients, the derivative, and the `+ - * /` operators by scalars and by
  polynomials. Every contract states the shape of the result unconditionally and
  its exact coefficients whenever the coefficient type's operators follow vstd's
  specifications of `core::ops`. For other coefficient types (the floating-point
  ones) the arithmetic functions state each result as a value that the
  operator calls they make may give, in order (`sum_of`, `horner_result`,
  `derivative_result`, `convolution_result`, ...).
- `src/special.rs`: `factorial`, `n_choose_k` and the polynomial families. Each
  family states its exact coefficients when the operators it uses follow vstd's
  specifications, and otherwise a run of the recurrence (or the closed form)
  whose every conversion and operation gives one of its possible values
  (`legendre_result`, `hermite_result`, `laguerre_term`).
- `src/ring.rs`: ring and field laws of the coefficient operations, as
  predicates with one lemma per law.
- `src/laws.rs`: Horner's rule as the power sum, the laws of evaluation (sum,
  difference, scalar multiple, quotient, product), of `evaluate_derivative`
  and of `set_coefficient`, subtraction undoing addition and division undoing
  scaling, and for the three families their normalizations,
  their three-term recurrences and `H_n' = 2n H_{n-1}`.
- `app/lib.rs`: the `alga`/`num-complex`/`num-traits` side — a polynomial type
  over any `ComplexField` (`Complex` included) that implements `Zero` and
  `AbstractMagma<Additive>`, `make_complex`, and the three families over any
  `ComplexField`.
