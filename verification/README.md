# wishr

A personal wishlist and purchase tracker: named lists of wishes scored 1–5 on
want and need, sorted by their product, with estimated and actual costs and a
purchase history per list and overall.

The library (`src/`) is verified with Verus:

- `model` – the rows of the three tables (lists, wish items, purchase
  records) and the values the queries return. Money is counted in cents.
- `tables` – the mathematical reading of the store: the tables as
  sequences, their consistency (positive unique ids, every item in an
  existing list, every purchase record of an existing item), and what each
  query returns (counts, sums, filters, sorts, joins).
- `store` – `WishStore`, whose methods are the application's queries and
  updates, each proved against `tables`.
- `sort`, `order` – stable insertion sort, its specification and proofs, and
  the three orders the pages use (lists oldest first, items by priority then
  newest first, purchases newest first).
- `text` – trimming, empty-to-absent fields, and the byte order of texts.
- `ui` – the small decisions of the pages: route ids, labels, the purchase
  date, form checks, move targets, and the step functions of the item form
  and the new-list form (state and event in, next state and action out).
- `laws` – properties across operations: global totals are the sums of the
  per-list totals, queries return exactly the rows they describe, created
  rows are found again, marked items leave the active lists and enter the
  archive, deleted items leave no purchase behind.

The program (`app/`) is the Axum/Leptos web server: it stores the tables in
SQLite with sqlx, loads them into a `WishStore` for each request, and writes
back what the store decided. Queries are answered whatever the rows hold;
an update reads and writes inside one `BEGIN IMMEDIATE` transaction and is
refused when the rows are not consistent. The server reads the clock and
hands each update its time stamp.
