# photo_media

The verified core of a photo and media backend.

- `src/` is the library, written in Verus: the union-find forest and face
  clustering, the seed rules of person clustering, cursor paging, image
  download planning, identifier parsing, the SQL text of the statistics and
  search queries, and the counter bookkeeping that accompanies deletes.
  Every function carries a contract that Verus proves; the laws that tie
  several functions together are public proof functions.
- `tests/` exercises the library on concrete values.
- `app/` is ordinary Rust around the library: the float side of clustering
  (embedding distances with `ndarray` and `rayon`, centroids, choosing the
  nearest seed), which the library cannot hold.
