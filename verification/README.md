# arb_bot

Arbitrage between HYPE/USDC (@107) and HYPE/USDH (@232) on Hyperliquid. The bot follows
both order books over a WebSocket, buys HYPE on the cheaper book and sells it on the
dearer one when that earns more than the taker fees on both legs and a minimum profit.

## Layout

- `src/` is the library, verified with Verus.
  - `binary64`, `rounding`, `arithmetic`, `natural`, `ratio`, `decimal`: prices, sizes and
    balances as IEEE 754 binary64 numbers. Subtraction, multiplication, division,
    comparison and reading from text are proved to give the nearest number, ties to even.
  - `settings`, `strategy`, `executor`: which trade the prices call for, and whether it is
    placed.
  - `feed`, `client`: what the messages of the feed do to prices and balances.
  - `subscription`: the requests that open the feed.
  - `orders`: the two legs of a trade and the answer to them.
  - `settlement`: what follows a trade. Legs that are filled in full complete it. HYPE
    without a counterpart is offloaded at a price at most 2% worse, and so is what that
    leaves unfilled. When balances come in after a trade, dollars are moved so that USDC
    and USDH are split evenly.
  - `numeric_laws`, `trading_laws`, `run_laws`: what holds of all of these together.
- `app/` is the program: the WebSocket, the exchange client, logging and settings.
- `tests/` runs the library on concrete values and compares it with the machine's own
  arithmetic.

## Settings

The program reads these from the environment:

- `PRIVATE_KEY`, `USER_ADDRESS`, `RUST_LOG`
- `FIXED_ORDER_SIZE`: the dollars to spend on one trade, 20.0 unless it is set
- `MINIMUM_PROFIT`: what a trade has to earn beyond the fees, 0.0 unless it is set
