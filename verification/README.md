# Huckleberry

An interpreter for Huckleberry, a small language that mixes Lisp
S-expressions with Smalltalk-like method expressions, written in Verus.

```clojure
(defn fact [n] (if (lte n 1) 1 (* n (fact (- n 1)))))
(defm number? [to: max] (range this max))
<0 to: (fact 3)>   ;; [0 1 2 3 4 5]
```

## Layout

- `src/scanner.rs`: text to tokens; `scan_spec` states the token sequence of every text.
- `src/parser.rs`: tokens to expressions; `parse_spec` states the expressions of every text.
- `src/expr.rs`, `src/order.rs`, `src/number.rs`: values, their equality, their order
  (maps keep their keys sorted by it), their texts; numbers are exact fractions.
- `src/env.rs`: environment frames kept in a `Store`, referred to by `EnvRef`.
- `src/evaluator.rs`: evaluation; `eval_expr_spec` and the functions next to it define
  what every expression evaluates to, and the evaluator is proved to follow them.
- `src/special_forms.rs`, `src/native.rs`, `src/modules.rs`: the built-in functions.
- `src/laws.rs`: properties of the whole, such as what reading a variable gives
  after defining or setting it, and that map lookup finds keys equal by `=`.
- `src/form_laws.rs`: `if`, `=` / `!=` and method dispatch as laws: `if` evaluates
  only the branch its condition chooses; `=` compares values; selectors are tried
  in the order the methods were defined, each called with the receiver's value
  as it is.
- `src/depth_laws.rs`: the depth bound only bounds: an evaluation that does not run
  out of depth gives the same result under any larger bound.
- `src/program_laws.rs`: parsing composes: the parse of two programs joined by a
  space is the parse of the first followed by that of the second.
- `app/main.rs`: the interactive prompt.

## Numbers

Numbers are exact fractions whose numerator and denominator are 64-bit
integers. Arithmetic on them is exact, so `(+ 0.1 0.2)` is `0.3`. Results are kept
in lowest terms (`law_reduce_keeps_value` shows that this keeps their value).
Division by zero, and a result whose reduced numerator or denominator does not
fit in 64 bits, give an `ArithmeticError`; a number literal beyond that range is refused
by the scanner with the error `Invalid number`. Floating-point values, with their
infinities and rounding, are not part of the language as implemented here.

## Depth

Evaluation is bounded by `MAX_DEPTH`, which is `usize::MAX`: a depth that no
machine's stack reaches, so in practice evaluation nests as deep as the stack
allows (the `RecursionLimit` error is there only to make the recursion provably
finite, and `law_depth_only_bounds` shows that the bound never changes a result
it does not stop). The prompt runs the interpreter on a thread with a large
stack. Line numbers are counted in an `i32`, so a text may hold fewer than
`i32::MAX - 1` line breaks (`text_fits`). Printed text is collected in the `Store`; the prompt shows it after each
line.
