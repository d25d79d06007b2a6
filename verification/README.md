# option_desk

Option chain snapshots, strike selection and an account PnL kill switch, verified with Verus.

## Layout

- `src/strike_range.rs`, `src/strike_laws.rs`: which strikes a range selects around an ATM price.
- `src/chain.rs`, `src/chain_laws.rs`: snapshots of an option chain, and steps along its quoted or
  listed strikes.
- `src/greeks.rs`, `src/identifiers.rs`, `src/text.rs`: what the snapshots hold and how it is shown.
- `src/fixed.rs`, `src/decimal.rs`, `src/binary64.rs`, `src/calendar.rs`: numbers and dates.
- `src/user_pnl/`: the account PnL sidecar.
  - `config.rs`, `inputs.rs`: its configuration and what the node reports.
  - `model.rs`: the sidecar as a mathematical state machine.
  - `machine.rs`: the sidecar as a program, proved to follow the model.
  - `soundness.rs`, `laws.rs`, `checks.rs`: what holds at all times, of each step, and of whole
    checks.
  - `kernel.rs`: what the kernel decides when strategies are stopped and started.
- `app/`: serialization, printing, logging, and the traits of the node that the sidecar runs on.

## The sidecar

A check starts with `UserPnL::begin_check`. From then on `UserPnL::request` says what the sidecar
needs, and `UserPnL::answer` takes the reply, until the request is `Request::Nothing`. The caller
does the work; the sidecar makes the decisions.

```text
Idle        --PnL at or past a bound-->            Flattening   trading reduced, exits asked for
Flattening  --something open-->                    Flattening   exits asked for again
Flattening  --nothing open, same UTC day-->        Halted       strategies stopped, trading halted
Flattening  --nothing open, later UTC day-->       Idle         trading active
Halted      --UTC date changes-->                  Idle         trading active, strategies started
```

## Numbers

Prices, quantities and amounts of money are counts of billionths. Doubles are carried by their bit
pattern. Decimal arithmetic is that of `rust_decimal`, and UTC dates are those of `jiff`; what is
believed of each call stands in the contract of the function that makes it.
