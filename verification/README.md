# ypbank_converter

Reads, writes, converts and compares bank transaction records in three formats:
YPBankCsv (`csv`), YPBankText (`text`) and YPBankBin (`bin`).

- `src/` is the verified library. Each format is a function from bytes to
  transactions and one from transactions to bytes, each with a contract over a
  mathematical description of the format (`csv_parse`, `txt_parse`, `bin_parse`,
  `csv_text`, `txt_text`, `bin_bytes`). Laws state that what a writer produces reads
  back (`law_write_then_read` in each format module) and what comparison promises
  (`comparer.rs`). Reading also reports, as values, the records it read only in part
  (`read_warnings`); `convert` states a whole conversion and its order of errors.
- `app/` is the command-line program: argument handling, files and messages.
- `tests/` runs the library on concrete values.

## Usage

The program has one binary with two subcommands; without one it reads commands from
standard input until `exit`.

```bash
cargo run -- converter <input_file> <input_format> <output_format>
cargo run -- comparer <file1> <format1> <file2> <format2>
cargo run
```

Formats are named `csv`, `text` and `bin`. A converted file keeps the input's name with the
extension of the output format (`csv`, `txt`, `bin`).
