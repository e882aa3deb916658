use vstd::prelude::*;
use crate::placeholder::OpenApiPlaceHolder;
use crate::text::{chars_of, replace_all, replaced, string_of};

verus! {

/// The Swagger UI page; `{{openapi_yaml_url}}` stands for the document's address.
pub const SWAGGER_UI_PAGE: &'static str = "<!DOCTYPE html>
<html lang=\"en\">
<head>
  <meta charset=\"utf-8\" />
  <title>Swagger UI</title>
  <link rel=\"stylesheet\" href=\"https://unpkg.com/swagger-ui-dist@4/swagger-ui.css\" />
</head>
<body>
  <div id=\"swagger-ui\"></div>
  <script src=\"https://unpkg.com/swagger-ui-dist@4/swagger-ui-bundle.js\"></script>
  <script>
    window.onload = function () {
      window.ui = SwaggerUIBundle({ url: \"{{openapi_yaml_url}}\", dom_id: \"#swagger-ui\" });
    };
  </script>
</body>
</html>
";

/// The ReDoc page; `{{openapi_yaml_url}}` stands for the document's address.
pub const REDOC_UI_PAGE: &'static str = "<!DOCTYPE html>
<html lang=\"en\">
<head>
  <meta charset=\"utf-8\" />
  <title>ReDoc</title>
  <meta name=\"viewport\" content=\"width=device-width, initial-scale=1\" />
  <style>body { margin: 0; padding: 0; }</style>
</head>
<body>
  <redoc spec-url=\"{{openapi_yaml_url}}\"></redoc>
  <script src=\"https://cdn.jsdelivr.net/npm/redoc@next/bundles/redoc.standalone.js\"></script>
</body>
</html>
";

/// The marker for the document's address in a viewer page.
pub open spec fn url_marker() -> Seq<char> {
    "{{openapi_yaml_url}}"@
}

fn page_with_url(page: &str, url: &str) -> (r: String)
    ensures
        r@ == replaced(page@, url_marker(), url@),
{
    let out = replace_all(&chars_of(page), &chars_of("{{openapi_yaml_url}}"), &chars_of(url));
    string_of(&out)
}

impl OpenApiPlaceHolder {
    /// The Swagger UI page that shows the document at `openapi_yaml_url`.
    pub fn swagger_ui_html(openapi_yaml_url: &str) -> (r: String)
        ensures
            r@ == replaced(SWAGGER_UI_PAGE@, url_marker(), openapi_yaml_url@),
    {
        page_with_url(SWAGGER_UI_PAGE, openapi_yaml_url)
    }

    /// The ReDoc page that shows the document at `openapi_yaml_url`.
    pub fn redoc_ui_html(openapi_yaml_url: &str) -> (r: String)
        ensures
            r@ == replaced(REDOC_UI_PAGE@, url_marker(), openapi_yaml_url@),
    {
        page_with_url(REDOC_UI_PAGE, openapi_yaml_url)
    }
}

} // verus!
