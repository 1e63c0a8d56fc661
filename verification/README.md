# adp_trafic_aerien

Loader and reporting tool for the air traffic leaving New York (JFK, LGA,
EWR), stored in MySQL.

- `src/` is the verified library (Verus):
  - `text`: Unicode white space, trimming, blank cells, timestamps for MySQL;
  - `number`: decimal integers as `str::parse` reads them;
  - `sql_script`: a schema script cut into statements, comments removed
    line by line;
  - `cli`: the commands and options of the program;
  - `config`: the database settings taken from the environment;
  - `csv_input`, `rows`: CSV files read into the rows of the five tables;
  - `batch`: the insert batches of the `flights` table;
  - `schema`: the tables and their loading order;
  - `report`: headings, totals, health check and pages.
- `app/` is the program around it: environment, files, MySQL, the web
  server, and the floating-point reading of some cells.
- `tests/` exercises the library.
