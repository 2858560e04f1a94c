# riverdi-rva35hi-stm32u5-embassy

ILI9488 driver for the Riverdi RVA35HI-NUC144A 3.5" 480x320 IPS LCD shield over
the STM32U5 FMC bus in 8080 parallel mode, verified with Verus.

The driver is split in two. The library in `src/` decides everything: which
bytes go to the panel, which register bits change, which line is driven, how
long to wait. It writes these decisions down as a queue of operations and hands
them out one action at a time. The crate in `app/` owns the pins and registers,
performs each action, and gives back the word if the action was a read.

```rust,ignore
let mut word = 0;
while let Some(action) = display.resume(word) {
    word = perform(action);
}
```

| Module     | Contents                                                       |
|------------|----------------------------------------------------------------|
| `ops`      | operations, and the actions they turn into                     |
| `queue`    | the queue of operations and the stepping through it            |
| `bus`      | commands, data bytes and runs of pixels on the 8080 link       |
| `display`  | the display handle: `clear`, `fill_rect`, `draw_iter`, ...      |
| `builder`  | configuration, reset pulse, bring-up                           |
| `gpio`     | pin routing                                                    |
| `fmc`      | memory controller and MPU set-up                               |
| `init`     | the panel's start-up sequence                                  |
| `geometry`, `color` | points, rectangles, colours                           |
| `model`    | registers, lines and panel controller, as the laws see them    |
| `laws`     | what holds of the driver as a whole                            |

What the laws say, in short: a fill paints exactly the cells asked for that are
on the panel; pixels off the panel are skipped; the bring-up routes exactly the
panel's pins and never `PE11`, whose FMC function would strobe the reset line;
the bus width changes only while the bank is disabled and the MPU changes only
while it is off; without an MPU region the MPU is not touched at all; `PB8` and
`PE11` end as outputs, and high; and every register bit that none of this
concerns stays as it was.
