# pocker

`pocker` pulls OCI container images from registries with a local, resumable cache, pulls the images
of Compose projects, and serves its cache as a registry.

The library under `src/` holds the logic and its proofs: references, digests and platforms, the
layout and checks of the cache, the decisions of a request, of a download and of a pull, the
resolution of Compose projects, the archives handed to Docker, the Docker API, the cache registry
and the progress display. Each function states what it returns; public proof functions whose names
begin with `law_` state what holds across functions.

Calls into other crates stand in small functions marked `#[verifier::external_body]`, each with a
comment that says what is believed of the call.

The program under `app/` does the input and output around the library. The tests under `tests/` run
the compiled library.
