# lax

The logic of LaX, a portable local web stack (Apache or Nginx, MariaDB, PHP,
Mailpit, DbGate), written in Verus. The functions of `src/` carry contracts
that Verus proves, except a few thin wrappers around outside code, whose
contracts are believed, not proved: `to_lowercase` (`str::to_lowercase`),
`parse_package_json` (serde_json), `path_parent` (`Path::parent`),
`debug_str` (`format!("{:?}")`), `push_char` (`String::push`), and the
declared type `std::io::Error`.

## Layout

- `src/` — the verified library.
  - `text`, `paths`, `platform`: text, path and command-line building blocks.
  - `config`: the settings and the layout of the portable tree.
  - `hosts`, `vhosts`, `php`, `portable`: the files the stack generates or
    patches (hosts block, site files, `php.ini` extensions, moved roots).
  - `projects`, `discover`, `logs`, `db`: what the window lists and reads.
  - `services`, `process`, `state`, `commands`: what each service runs, the
    table of started processes, the start of the web server as a state
    machine, the decisions behind the buttons.
  - `update`: versions, release assets, and where each file of an update
    archive goes.
- `tests/` — tests on concrete values, run against the compiled library.
- `app/` — the desktop application around the library: the window and its
  commands, files, processes, sockets and downloads.

## Laws proved

Among others, each under the conditions its lemma states: syncing the hosts file twice equals syncing once; switching a
PHP extension and reading `php.ini` back shows the requested state, and
switching it again changes nothing; an update never writes below `www`,
`data`, `logs` or `tmp` (an entry such as `LaX-1.0/./www/index.php` is left
out like `LaX-1.0/www/index.php`, and one that starts with a separator below
the wrapping folder is refused); rewriting a root into one that
extends it is stable, and when neither root extends the other it is the plain
`str::replace`; a project folder name holds only ASCII lower-case letters,
digits, `-` and `_`, and neither starts nor ends with `-`; the project list
is the stable sort of the listed folders by lower-cased name; over a whole
download the reported percentages rise strictly and end at 100; the
FastCGI configuration keeps no `<<ROOT>>` or `<<PHP_DIR>>` placeholder when
the template's own text holds no `<<` and the paths hold no `<`;
patching Apache's `Listen` line and phpMyAdmin's config is idempotent; the
process table behaves as a map; the start of the web server follows the
configured server and always ends; "newer" is a strict total order on
version numbers.
