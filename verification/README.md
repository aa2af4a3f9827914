# vgindex

The verified core of a catalogue of disc dumps: what is submitted, how it is checked and
compared with what is stored, what an approval does to a disc, and what the catalogue
gives out.

* `src/` is the library. Each function states what it returns, and Verus proves it.
  Where the library calls another crate or a function of `std` that has no
  specification, a small wrapper states what is taken for granted.
* `tests/` runs the library on concrete values.
* `app/` is the service around it: the database, the files, the feed of the forum.

| Module | What it holds |
| --- | --- |
| `text`, `content_lines`, `numbers`, `unicode`, `order`, `clock`, `json`, `json_text`, `xml`, `zip_file` | values and their texts |
| `models`, `naming`, `hex_case`, `error` | discs, systems, submissions and their names |
| `services` | validation of forms and logs, changes and approvals, matching, queries, archives, exports, news |
| `routes` | what the pages of the queue and of a review show |
| `transliteration` | drafts of titles written in Japanese, Chinese, Greek and Russian |

Japanese titles are cut into words by the IPADIC dictionary of `lindera`. This package asks
for `lindera` without its `embed-ipadic` feature, because that feature downloads the
dictionary while it is built. Without it `JapaneseTransliterator::new` and
`TransliterationRegistry::new` return the error that the dictionary could not be loaded, and
what is done with the words, `transliterate_with`, works on any list of them. To draft
Japanese titles, add the feature to the dependency; nothing else changes.
