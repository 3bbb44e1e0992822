//! Paragraph injection over a representative evaluated body.

use rocket::inject_paragraphs::inject_paragraphs;

#[test]
fn test_inject_paragraphs() {
    assert_eq!(inject_paragraphs(""), "".to_owned());

    let src = "<section><h1 id=\"home\">Home</h1>

Rocket is a fast, powerful, and homoiconic text markup format.

Example ref: <a href=\"tutorials/writing-your-first-project\">Writing Your First Project</a>.

<section><h2 id=\"level-2-title\">Level 2 Title</h2>

<h2 id=\"same-level\">Same Level</h2>

<section><h3 id=\"level-3-title\">Level 3 Title</h3>

</section><h2 id=\"back-up-to-level-2\">Back Up to Level 2</h2>

<div class=\"steps\"><div class=\"steps__step\"><div class=\"steps__bullet\"><div class=\"steps__stepnumber\">3</div></div><h4>Third Step</h4><div>Lorem ipsum

Sed facilisis
</div></div></div>

<pre style=\"background-color:#eff1f5;\">
<span style=\"color:#b48ead;\">sudo</span>

<span style=\"color:#b48ead;\">clear</span>

</pre>

</section></section>";

    let expected = "<section><h1 id=\"home\">Home</h1>

<p>Rocket is a fast, powerful, and homoiconic text markup format.

<p>Example ref: <a href=\"tutorials/writing-your-first-project\">Writing Your First Project</a>.

<section><h2 id=\"level-2-title\">Level 2 Title</h2>

<h2 id=\"same-level\">Same Level</h2>

<section><h3 id=\"level-3-title\">Level 3 Title</h3>

</section><h2 id=\"back-up-to-level-2\">Back Up to Level 2</h2>

<div class=\"steps\"><div class=\"steps__step\"><div class=\"steps__bullet\"><div class=\"steps__stepnumber\">3</div></div><h4>Third Step</h4><div>Lorem ipsum

<p>Sed facilisis
</div></div></div>

<pre style=\"background-color:#eff1f5;\">
<span style=\"color:#b48ead;\">sudo</span>

<span style=\"color:#b48ead;\">clear</span>

</pre>

</section></section>";

    assert_eq!(inject_paragraphs(src), expected.to_owned());
}
