# gscript

A small script language for writing G-code by hand, and the reader that turns
its scripts into G-code. The reading is verified with Verus; the geometry,
which works in floating point, and the file handling live in `app/`.

A script is a list of commands, each `name(arguments){entries;}`, ended by
`ENDOFFILE`:

```
Settings(){
  n:0.4;
  w:.4;
  h:0.2;
  m:1;
}
Travel (const:Z.2,f400;){
  0,0;
  1,1;
  20,3.5;
}
Probe(){
  0,0;
  50,50;
}
Rectangle(){
  0,0:70,20;
}
ce(){
 10,5:25;
}
ENDOFFILE
```

The command names `Settings`, `Probe`, `Travel`, `Circle` and `Rectangle` are
matched in any case; the other keywords (`move`, `ce`, `ce|`, `rect`, `recte`,
`recte|`, `extrude`, `ext`) only in lower case.

Layout of `src/`:

- `text.rs`: finding, splitting, words, trimming, stated over `Seq<char>`,
  with executable versions and the laws that relate them (splitting and
  joining, whitespace removal).
- `gco.rs`: G-code command words and their text, both ways.
- `gscript_lib.rs`: the script, its division into commands at `}` with the
  end marker dropped, and the keyword that opens a command.
- `commands.rs`: the body of a command: delimited text, constants, points,
  travel and probe lines, settings, circle and rectangle entries.
- `program.rs`: what each command does, decided from its text: the
  constants line, the G-code it emits, or the entries it hands to the
  numeric side.

`app/` reads `in.gscript`, carries out what `program.rs` decides (parsing
numbers, computing circle steps and extrusion amounts) and writes
`out.gcode`.
