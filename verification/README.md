# goose_recipe

Recipes are session definitions that can be shared: a prompt or instructions, the
extensions to enable, parameters, sub-recipes, and how to try again after a failure.
This crate holds the logic around them, verified with Verus:

- `chars`, `display`: which characters a text can hide, and how commands and their
  arguments are shown so that nothing stays hidden and no boundary is lost
  (`display_laws`).
- `warnings`, `security`: the commands that a recipe runs, for a user to review, and the
  check for hidden tag characters (`warnings_laws`).
- `injection`: extensions that a recipe needs without naming them.
- `document`: where in a document a recipe stands, and loading and writing it.
- `builder`, `recipe`, `extension`, `retry`, `parameter`, `sub_recipe`: the data.
- `text`, `order`, `string_map`: texts, their order, and maps of them.

`outside` declares the JSON and YAML values that recipes carry. `app/` reads and writes
recipes with serde.
